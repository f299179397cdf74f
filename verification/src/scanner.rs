//! The scanner: a single left-to-right pass that turns source text into
//! tokens, specified against a recursive mathematical scanner over the
//! character sequence.

use vstd::prelude::*;
use vstd::string::StrSliceExecFns;
use crate::errors::TokenizationError;
use crate::text::push_char;
use crate::token::{FilePosition, Token, TokenView};
use crate::token_type::{
    digit_value,
    spec_is_digit,
    spec_is_identifier_char,
    spec_is_ignored_char,
    spec_is_string_delimiter,
    spec_keyword_token,
    spec_single_char_token,
    spec_two_char_token,
    TokenType,
    TokenTypeView,
};

verus! {

/// The line counter after consuming one character.
pub open spec fn upd_line(line: int, c: char) -> int {
    if c == '\n' {
        line + 1
    } else {
        line
    }
}

/// The column counter after consuming one character.
pub open spec fn upd_col(col: int, c: char) -> int {
    if c == '\n' {
        0
    } else {
        col + 1
    }
}

/// What scanning the digits-and-underscores run of an integer literal yields:
/// either the index of the first character past the run together with the
/// accumulated value, or the index of the digit whose accumulation left the
/// 64-bit signed range.
pub ghost enum IntScan {
    Done { next: int, value: int },
    Overflow { at: int },
}

/// Scans digits and underscores from index `i`, accumulating `value`.
pub open spec fn scan_int(s: Seq<char>, i: int, value: int) -> IntScan
    decreases s.len() - i,
{
    if 0 <= i < s.len() && spec_is_digit(s[i]) {
        let v2 = value * 10 + digit_value(s[i]);
        if v2 > i64::MAX {
            IntScan::Overflow { at: i }
        } else {
            scan_int(s, i + 1, v2)
        }
    } else if 0 <= i < s.len() && s[i] == '_' {
        scan_int(s, i + 1, value)
    } else {
        IntScan::Done { next: i, value }
    }
}

/// What scanning a fractional run yields: the index of the first character
/// past the run, and the fractional digits in source order.
pub ghost struct FracScan {
    pub next: int,
    pub digits: Seq<u8>,
}

/// Scans digits and underscores from index `i`, collecting the digits.
pub open spec fn scan_frac(s: Seq<char>, i: int, digits: Seq<u8>) -> FracScan
    decreases s.len() - i,
{
    if 0 <= i < s.len() && spec_is_digit(s[i]) {
        scan_frac(s, i + 1, digits.push(digit_value(s[i]) as u8))
    } else if 0 <= i < s.len() && s[i] == '_' {
        scan_frac(s, i + 1, digits)
    } else {
        FracScan { next: i, digits }
    }
}

/// The index of the first character at or after `i` that cannot continue an
/// identifier.
pub open spec fn ident_end(s: Seq<char>, i: int) -> int
    decreases s.len() - i,
{
    if 0 <= i < s.len() && spec_is_identifier_char(s[i], false) {
        ident_end(s, i + 1)
    } else {
        i
    }
}

/// The character an escape sequence denotes: `n`, `t`, `r`, `\` and the
/// delimiter itself are valid, in that order of comparison.
pub open spec fn spec_escaped_char(ch: char, delim: char) -> Option<char> {
    if ch == 'n' {
        Some('\n')
    } else if ch == 't' {
        Some('\t')
    } else if ch == 'r' {
        Some('\r')
    } else if ch == '\\' {
        Some('\\')
    } else if ch == delim {
        Some(delim)
    } else {
        None
    }
}

/// What scanning the body of a string literal yields. `Closed` carries the
/// index one past the closing delimiter, the content with escapes resolved,
/// and the position counters after the closing delimiter. `BadEscape` carries
/// the offending character and its position.
pub ghost enum StrScan {
    Closed { next: int, content: Seq<char>, line: int, col: int },
    Unclosed,
    BadEscape { ch: char, line: int, col: int },
}

/// Scans a string body from index `i`; `(line, col)` is the position of the
/// character at `i`.
pub open spec fn scan_string(
    s: Seq<char>,
    i: int,
    delim: char,
    content: Seq<char>,
    line: int,
    col: int,
) -> StrScan
    decreases s.len() - i,
{
    if !(0 <= i < s.len()) {
        StrScan::Unclosed
    } else {
        let c = s[i];
        if c == '\\' {
            if i + 1 >= s.len() {
                StrScan::Unclosed
            } else {
                match spec_escaped_char(s[i + 1], delim) {
                    Some(e) => scan_string(s, i + 2, delim, content.push(e), line, col + 2),
                    None => StrScan::BadEscape { ch: s[i + 1], line, col: col + 1 },
                }
            }
        } else if c == delim {
            StrScan::Closed { next: i + 1, content, line, col: col + 1 }
        } else {
            scan_string(s, i + 1, delim, content.push(c), upd_line(line, c), upd_col(col, c))
        }
    }
}

proof fn lemma_scan_int_bounds(s: Seq<char>, i: int, value: int)
    requires
        0 <= i <= s.len(),
    ensures
        match scan_int(s, i, value) {
            IntScan::Done { next, value: _ } => i <= next <= s.len(),
            IntScan::Overflow { at } => i <= at < s.len(),
        },
    decreases s.len() - i,
{
    if i < s.len() && spec_is_digit(s[i]) {
        let v2 = value * 10 + digit_value(s[i]);
        if v2 <= i64::MAX {
            lemma_scan_int_bounds(s, i + 1, v2);
        }
    } else if i < s.len() && s[i] == '_' {
        lemma_scan_int_bounds(s, i + 1, value);
    }
}

proof fn lemma_scan_frac_bounds(s: Seq<char>, i: int, digits: Seq<u8>)
    requires
        0 <= i <= s.len(),
    ensures
        i <= scan_frac(s, i, digits).next <= s.len(),
    decreases s.len() - i,
{
    if i < s.len() && spec_is_digit(s[i]) {
        lemma_scan_frac_bounds(s, i + 1, digits.push(digit_value(s[i]) as u8));
    } else if i < s.len() && s[i] == '_' {
        lemma_scan_frac_bounds(s, i + 1, digits);
    }
}

proof fn lemma_ident_end_bounds(s: Seq<char>, i: int)
    requires
        0 <= i <= s.len(),
    ensures
        i <= ident_end(s, i) <= s.len(),
    decreases s.len() - i,
{
    if i < s.len() && spec_is_identifier_char(s[i], false) {
        lemma_ident_end_bounds(s, i + 1);
    }
}

proof fn lemma_scan_string_bounds(
    s: Seq<char>,
    i: int,
    delim: char,
    content: Seq<char>,
    line: int,
    col: int,
)
    requires
        0 <= i <= s.len(),
    ensures
        match scan_string(s, i, delim, content, line, col) {
            StrScan::Closed { next, .. } => i < next <= s.len(),
            _ => true,
        },
    decreases s.len() - i,
{
    if i < s.len() {
        let c = s[i];
        if c == '\\' {
            if i + 1 < s.len() {
                match spec_escaped_char(s[i + 1], delim) {
                    Some(e) => lemma_scan_string_bounds(
                        s,
                        i + 2,
                        delim,
                        content.push(e),
                        line,
                        col + 2,
                    ),
                    None => {},
                }
            }
        } else if c != delim {
            lemma_scan_string_bounds(
                s,
                i + 1,
                delim,
                content.push(c),
                upd_line(line, c),
                upd_col(col, c),
            );
        }
    }
}

/// Prepends one token to the result of scanning the rest of the input.
pub open spec fn prepend(
    t: TokenView,
    r: Result<Seq<TokenView>, TokenizationError>,
) -> Result<Seq<TokenView>, TokenizationError> {
    match r {
        Ok(rest) => Ok(seq![t] + rest),
        Err(e) => Err(e),
    }
}

/// The mathematical scanner: the tokens (or the first error) of the input
/// from index `i` on, where `(line, col)` is the position of the character at
/// index `i`. One branch per character category, in the scanner's dispatch
/// order: two-character operators, numbers starting with a digit, numbers
/// starting with `.`, one-character tokens, identifiers and keywords, string
/// literals, whitespace, and everything else, which is an error.
pub open spec fn scan(s: Seq<char>, i: int, line: int, col: int) -> Result<
    Seq<TokenView>,
    TokenizationError,
>
    decreases s.len() - i,
    via scan_decreases
{
    if !(0 <= i < s.len()) {
        Ok(Seq::empty())
    } else {
        let c = s[i];
        if i + 1 < s.len() && spec_two_char_token(c, s[i + 1]) is Some {
            let t = TokenView {
                token: spec_two_char_token(c, s[i + 1])->Some_0,
                column: col,
                line,
                end_column: col + 2,
                end_line: line,
            };
            prepend(t, scan(s, i + 2, line, col + 2))
        } else if spec_is_digit(c) {
            match scan_int(s, i + 1, digit_value(c)) {
                IntScan::Overflow { at } => Err(
                    TokenizationError::NumOutOfRangeError {
                        col: (col + (at - i)) as u64,
                        line: line as u64,
                    },
                ),
                IntScan::Done { next, value } => {
                    if next < s.len() && s[next] == '.' {
                        let fr = scan_frac(s, next + 1, Seq::empty());
                        let t = TokenView {
                            token: TokenTypeView::Float { whole: value, frac: fr.digits },
                            column: col,
                            line,
                            end_column: col + (fr.next - i),
                            end_line: line,
                        };
                        prepend(t, scan(s, fr.next, line, col + (fr.next - i)))
                    } else {
                        let t = TokenView {
                            token: TokenTypeView::Int(value),
                            column: col,
                            line,
                            end_column: col + (next - i),
                            end_line: line,
                        };
                        prepend(t, scan(s, next, line, col + (next - i)))
                    }
                },
            }
        } else if c == '.' {
            let fr = scan_frac(s, i + 1, Seq::empty());
            if fr.digits.len() == 0 {
                Err(
                    TokenizationError::UnexpectedCharacter {
                        ch: '.',
                        col: col as u64,
                        line: line as u64,
                    },
                )
            } else {
                let t = TokenView {
                    token: TokenTypeView::Float { whole: 0, frac: fr.digits },
                    column: col,
                    line,
                    end_column: col + (fr.next - i),
                    end_line: line,
                };
                prepend(t, scan(s, fr.next, line, col + (fr.next - i)))
            }
        } else if spec_single_char_token(c) is Some {
            let t = TokenView {
                token: spec_single_char_token(c)->Some_0,
                column: col,
                line,
                end_column: col + 1,
                end_line: line,
            };
            prepend(t, scan(s, i + 1, line, col + 1))
        } else if spec_is_identifier_char(c, true) {
            let end = ident_end(s, i + 1);
            let t = TokenView {
                token: spec_keyword_token(s.subrange(i, end)),
                column: col,
                line,
                end_column: col + (end - i),
                end_line: line,
            };
            prepend(t, scan(s, end, line, col + (end - i)))
        } else if spec_is_string_delimiter(c) {
            match scan_string(s, i + 1, c, Seq::empty(), line, col + 1) {
                StrScan::Closed { next, content, line: l2, col: c2 } => {
                    let t = TokenView {
                        token: TokenTypeView::String(content),
                        column: col,
                        line,
                        end_column: c2,
                        end_line: l2,
                    };
                    prepend(t, scan(s, next, l2, c2))
                },
                StrScan::Unclosed => Err(
                    TokenizationError::UnclosedString { col: col as u64, line: line as u64 },
                ),
                StrScan::BadEscape { ch, line: l2, col: c2 } => Err(
                    TokenizationError::InvalidEscapeCharacter {
                        ch,
                        col: c2 as u64,
                        line: l2 as u64,
                    },
                ),
            }
        } else if spec_is_ignored_char(c) {
            scan(s, i + 1, upd_line(line, c), upd_col(col, c))
        } else {
            Err(TokenizationError::UnrecognizedCharacter { ch: c, col: col as u64, line: line as u64 })
        }
    }
}

#[via_fn]
proof fn scan_decreases(s: Seq<char>, i: int, line: int, col: int) {
    if 0 <= i < s.len() {
        let c = s[i];
        if spec_is_digit(c) {
            lemma_scan_int_bounds(s, i + 1, digit_value(c));
            match scan_int(s, i + 1, digit_value(c)) {
                IntScan::Done { next, value: _ } => {
                    if next < s.len() && s[next] == '.' {
                        lemma_scan_frac_bounds(s, next + 1, Seq::empty());
                    }
                },
                IntScan::Overflow { .. } => {},
            }
        } else if c == '.' {
            lemma_scan_frac_bounds(s, i + 1, Seq::empty());
        } else if spec_is_identifier_char(c, true) {
            lemma_ident_end_bounds(s, i + 1);
        } else if spec_is_string_delimiter(c) {
            lemma_scan_string_bounds(s, i + 1, c, Seq::empty(), line, col + 1);
        }
    }
}

/// The tokens (or the first error) of a whole input: scanning starts at
/// line 1, column 0.
pub open spec fn spec_tokenize(s: Seq<char>) -> Result<Seq<TokenView>, TokenizationError> {
    scan(s, 0, 1, 0)
}

/// The views of a sequence of tokens.
pub open spec fn views(ts: Seq<Token>) -> Seq<TokenView> {
    ts.map_values(|t: Token| t@)
}

/// The scanned prefix `done` together with a scan of the remaining input
/// accounts for the whole result: whatever tokens or error the scan of the
/// whole input yields, they are `done` followed by the scan from `(i, line,
/// col)` on.
pub open spec fn scan_matches(
    s: Seq<char>,
    done: Seq<TokenView>,
    i: int,
    line: int,
    col: int,
) -> bool {
    match scan(s, i, line, col) {
        Ok(rest) => spec_tokenize(s) matches Ok(all) && all == done + rest,
        Err(e) => spec_tokenize(s) == Err::<Seq<TokenView>, TokenizationError>(e),
    }
}

proof fn lemma_views_push(ts: Seq<Token>, t: Token)
    ensures
        views(ts.push(t)) == views(ts).push(t@),
{
    assert(views(ts.push(t)) =~= views(ts).push(t@));
}

proof fn lemma_step_token(
    s: Seq<char>,
    done: Seq<TokenView>,
    t: TokenView,
    i0: int,
    l0: int,
    c0: int,
    i1: int,
    l1: int,
    c1: int,
)
    requires
        scan_matches(s, done, i0, l0, c0),
        scan(s, i0, l0, c0) == prepend(t, scan(s, i1, l1, c1)),
    ensures
        scan_matches(s, done.push(t), i1, l1, c1),
{
    match scan(s, i1, l1, c1) {
        Ok(rest) => {
            assert(done + (seq![t] + rest) =~= done.push(t) + rest);
        },
        Err(_) => {},
    }
}

proof fn lemma_step_skip(
    s: Seq<char>,
    done: Seq<TokenView>,
    i0: int,
    l0: int,
    c0: int,
    i1: int,
    l1: int,
    c1: int,
)
    requires
        scan_matches(s, done, i0, l0, c0),
        scan(s, i0, l0, c0) == scan(s, i1, l1, c1),
    ensures
        scan_matches(s, done, i1, l1, c1),
{
}

proof fn lemma_step_err(
    s: Seq<char>,
    done: Seq<TokenView>,
    i0: int,
    l0: int,
    c0: int,
    e: TokenizationError,
)
    requires
        scan_matches(s, done, i0, l0, c0),
        scan(s, i0, l0, c0) == Err::<Seq<TokenView>, TokenizationError>(e),
    ensures
        spec_tokenize(s) == Err::<Seq<TokenView>, TokenizationError>(e),
{
}

fn is_digit(c: char) -> (r: bool)
    ensures
        r == spec_is_digit(c),
{
    let u = c as u32;
    48 <= u && u <= 57
}

fn digit_of(c: char) -> (d: u8)
    requires
        spec_is_digit(c),
    ensures
        d as int == digit_value(c),
        d < 10,
{
    (c as u32 - 48) as u8
}

/// Converts a string slice into the list of its tokens, or the first
/// tokenization error: the result is exactly the mathematical scan of the
/// text, starting at line 1, column 0.
#[verifier::loop_isolation(false)]
#[verifier::rlimit(100)]
pub fn tokenize(code: &str) -> (r: Result<Vec<Token>, TokenizationError>)
    requires
        code@.len() < u64::MAX,
    ensures
        match r {
            Ok(tokens) => spec_tokenize(code@) matches Ok(all) && views(tokens@) == all,
            Err(e) => spec_tokenize(code@) == Err::<Seq<TokenView>, TokenizationError>(e),
        },
{
    let ghost s = code@;
    let n = code.unicode_len();
    // Decode the input once into an addressable character buffer.
    let mut chars: Vec<char> = Vec::new();
    let mut k: usize = 0;
    while k < n
        invariant
            k <= n,
            chars@ == s.subrange(0, k as int),
        decreases n - k,
    {
        chars.push(code.get_char(k));
        proof {
            assert(s.subrange(0, k as int).push(s[k as int]) =~= s.subrange(0, k as int + 1));
        }
        k += 1;
    }
    proof {
        assert(chars@ =~= s);
    }
    let mut out: Vec<Token> = Vec::new();
    let mut i: usize = 0;
    let mut column: u64 = 0;
    let mut line: u64 = 1;
    proof {
        assert(views(out@) =~= Seq::<TokenView>::empty());
        match scan(s, 0, 1, 0) {
            Ok(rest) => {
                assert(views(out@) + rest =~= rest);
            },
            Err(_) => {},
        }
    }
    while i < n
        invariant
            i <= n,
            column as int <= i as int,
            line as int <= 1 + i as int,
            scan_matches(s, views(out@), i as int, line as int, column as int),
        decreases n - i,
    {
        let ch = chars[i];
        let tok_col = column;
        let tok_line = line;
        let ghost i_tok = i as int;
        let ghost done0 = views(out@);
        i += 1;
        update_position(ch, &mut column, &mut line);
        // Two-character operators take priority over everything else.
        let two = if i < n {
            TokenType::two_char_token(ch, chars[i])
        } else {
            None
        };
        if let Some(tt) = two {
            let c2 = chars[i];
            i += 1;
            update_position(c2, &mut column, &mut line);
            let tok = Token::new_two_char(tt, tok_col, tok_line);
            let ghost outsnap = out@;
            out.push(tok);
            proof {
                assert(scan(s, i_tok, tok_line as int, tok_col as int) == prepend(
                    tok@,
                    scan(s, i as int, line as int, column as int),
                ));
                lemma_views_push(outsnap, tok);
                lemma_step_token(
                    s,
                    done0,
                    tok@,
                    i_tok,
                    tok_line as int,
                    tok_col as int,
                    i as int,
                    line as int,
                    column as int,
                );
            }
            continue ;
        }
        // A numeric literal starting with a digit.
        if is_digit(ch) {
            let mut value: i64 = digit_of(ch) as i64;
            while i < n && (is_digit(chars[i]) || chars[i] == '_')
                invariant
                    i_tok < i as int <= n as int,
                    0 <= value,
                    line as int == tok_line as int,
                    column as int == tok_col as int + (i as int - i_tok),
                    scan_int(s, i_tok + 1, digit_value(s[i_tok])) == scan_int(
                        s,
                        i as int,
                        value as int,
                    ),
                decreases n - i,
            {
                let d = chars[i];
                if is_digit(d) {
                    let dv = digit_of(d);
                    let v1 = match value.checked_mul(10) {
                        Some(v) => v,
                        None => {
                            let e = TokenizationError::NumOutOfRangeError { col: column, line };
                            proof {
                                assert(scan_int(s, i as int, value as int) == (IntScan::Overflow {
                                    at: i as int,
                                }));
                                assert(scan(s, i_tok, tok_line as int, tok_col as int) == Err::<
                                    Seq<TokenView>,
                                    TokenizationError,
                                >(e));
                                lemma_step_err(s, done0, i_tok, tok_line as int, tok_col as int, e);
                            }
                            return Err(e);
                        },
                    };
                    let v2 = match v1.checked_add(dv as i64) {
                        Some(v) => v,
                        None => {
                            let e = TokenizationError::NumOutOfRangeError { col: column, line };
                            proof {
                                assert(scan_int(s, i as int, value as int) == (IntScan::Overflow {
                                    at: i as int,
                                }));
                                assert(scan(s, i_tok, tok_line as int, tok_col as int) == Err::<
                                    Seq<TokenView>,
                                    TokenizationError,
                                >(e));
                                lemma_step_err(s, done0, i_tok, tok_line as int, tok_col as int, e);
                            }
                            return Err(e);
                        },
                    };
                    value = v2;
                    i += 1;
                    update_position(d, &mut column, &mut line);
                } else {
                    i += 1;
                    update_position(d, &mut column, &mut line);
                }
            }
            proof {
                assert(scan_int(s, i as int, value as int) == (IntScan::Done {
                    next: i as int,
                    value: value as int,
                }));
            }
            if i < n && chars[i] == '.' {
                let c2 = chars[i];
                i += 1;
                update_position(c2, &mut column, &mut line);
                let ghost fr0 = i as int;
                let mut frac: Vec<u8> = Vec::new();
                proof {
                    assert(frac@ =~= Seq::<u8>::empty());
                }
                while i < n && (is_digit(chars[i]) || chars[i] == '_')
                    invariant
                        fr0 <= i as int <= n as int,
                        line as int == tok_line as int,
                        column as int == tok_col as int + (i as int - i_tok),
                        scan_frac(s, fr0, Seq::empty()) == scan_frac(s, i as int, frac@),
                    decreases n - i,
                {
                    let d = chars[i];
                    if is_digit(d) {
                        let dv = digit_of(d);
                        frac.push(dv);
                        i += 1;
                        update_position(d, &mut column, &mut line);
                    } else {
                        i += 1;
                        update_position(d, &mut column, &mut line);
                    }
                }
                proof {
                    assert(scan_frac(s, i as int, frac@) == (FracScan {
                        next: i as int,
                        digits: frac@,
                    }));
                }
                let tok = Token::new(
                    TokenType::Float { whole: value, frac },
                    tok_col,
                    tok_line,
                    column,
                    line,
                );
                let ghost outsnap = out@;
                out.push(tok);
                proof {
                    assert(scan(s, i_tok, tok_line as int, tok_col as int) == prepend(
                        tok@,
                        scan(s, i as int, line as int, column as int),
                    ));
                    lemma_views_push(outsnap, tok);
                    lemma_step_token(
                        s,
                        done0,
                        tok@,
                        i_tok,
                        tok_line as int,
                        tok_col as int,
                        i as int,
                        line as int,
                        column as int,
                    );
                }
            } else {
                let tok = Token::new(TokenType::Int(value), tok_col, tok_line, column, line);
                let ghost outsnap = out@;
                out.push(tok);
                proof {
                    assert(scan(s, i_tok, tok_line as int, tok_col as int) == prepend(
                        tok@,
                        scan(s, i as int, line as int, column as int),
                    ));
                    lemma_views_push(outsnap, tok);
                    lemma_step_token(
                        s,
                        done0,
                        tok@,
                        i_tok,
                        tok_line as int,
                        tok_col as int,
                        i as int,
                        line as int,
                        column as int,
                    );
                }
            }
            continue ;
        }
        // A numeric literal starting with `.`: only a fractional part.
        if ch == '.' {
            let ghost fr0 = i as int;
            let mut frac: Vec<u8> = Vec::new();
            proof {
                assert(frac@ =~= Seq::<u8>::empty());
            }
            while i < n && (is_digit(chars[i]) || chars[i] == '_')
                invariant
                    fr0 <= i as int <= n as int,
                    line as int == tok_line as int,
                    column as int == tok_col as int + (i as int - i_tok),
                    scan_frac(s, fr0, Seq::empty()) == scan_frac(s, i as int, frac@),
                decreases n - i,
            {
                let d = chars[i];
                if is_digit(d) {
                    let dv = digit_of(d);
                    frac.push(dv);
                    i += 1;
                    update_position(d, &mut column, &mut line);
                } else {
                    i += 1;
                    update_position(d, &mut column, &mut line);
                }
            }
            proof {
                assert(scan_frac(s, i as int, frac@) == (FracScan {
                    next: i as int,
                    digits: frac@,
                }));
            }
            if frac.len() == 0 {
                let e = TokenizationError::UnexpectedCharacter {
                    ch: '.',
                    col: tok_col,
                    line: tok_line,
                };
                proof {
                    assert(scan(s, i_tok, tok_line as int, tok_col as int) == Err::<
                        Seq<TokenView>,
                        TokenizationError,
                    >(e));
                    lemma_step_err(s, done0, i_tok, tok_line as int, tok_col as int, e);
                }
                return Err(e);
            }
            let tok = Token::new(
                TokenType::Float { whole: 0, frac },
                tok_col,
                tok_line,
                column,
                line,
            );
            let ghost outsnap = out@;
            out.push(tok);
            proof {
                assert(scan(s, i_tok, tok_line as int, tok_col as int) == prepend(
                    tok@,
                    scan(s, i as int, line as int, column as int),
                ));
                lemma_views_push(outsnap, tok);
                lemma_step_token(
                    s,
                    done0,
                    tok@,
                    i_tok,
                    tok_line as int,
                    tok_col as int,
                    i as int,
                    line as int,
                    column as int,
                );
            }
            continue ;
        }
        // One-character tokens.
        let single = TokenType::single_char_token(ch);
        if let Some(tt) = single {
            let tok = Token::new_single_char(tt, tok_col, tok_line);
            let ghost outsnap = out@;
            out.push(tok);
            proof {
                assert(scan(s, i_tok, tok_line as int, tok_col as int) == prepend(
                    tok@,
                    scan(s, i as int, line as int, column as int),
                ));
                lemma_views_push(outsnap, tok);
                lemma_step_token(
                    s,
                    done0,
                    tok@,
                    i_tok,
                    tok_line as int,
                    tok_col as int,
                    i as int,
                    line as int,
                    column as int,
                );
            }
            continue ;
        }
        // Identifiers and keywords.
        if TokenType::is_identifier_char(ch, true) {
            let mut ident = String::new();
            push_char(&mut ident, ch);
            proof {
                assert(ident@ =~= s.subrange(i_tok, i as int));
            }
            while i < n && TokenType::is_identifier_char(chars[i], false)
                invariant
                    i_tok < i as int <= n as int,
                    line as int == tok_line as int,
                    column as int == tok_col as int + (i as int - i_tok),
                    ident@ == s.subrange(i_tok, i as int),
                    ident_end(s, i_tok + 1) == ident_end(s, i as int),
                decreases n - i,
            {
                let d = chars[i];
                push_char(&mut ident, d);
                proof {
                    assert(s.subrange(i_tok, i as int).push(s[i as int]) =~= s.subrange(
                        i_tok,
                        i as int + 1,
                    ));
                }
                i += 1;
                update_position(d, &mut column, &mut line);
            }
            let tt = TokenType::keyword_token(ident.as_str());
            let tok = Token::new(tt, tok_col, tok_line, column, line);
            let ghost outsnap = out@;
            out.push(tok);
            proof {
                assert(scan(s, i_tok, tok_line as int, tok_col as int) == prepend(
                    tok@,
                    scan(s, i as int, line as int, column as int),
                ));
                lemma_views_push(outsnap, tok);
                lemma_step_token(
                    s,
                    done0,
                    tok@,
                    i_tok,
                    tok_line as int,
                    tok_col as int,
                    i as int,
                    line as int,
                    column as int,
                );
            }
            continue ;
        }
        // String literals.
        if TokenType::is_string_delimiter(ch) {
            let delim = ch;
            let mut content = String::new();
            let mut closed = false;
            proof {
                assert(content@ =~= Seq::<char>::empty());
            }
            while i < n && !closed
                invariant
                    i_tok < i as int <= n as int,
                    column as int <= i as int,
                    line as int <= 1 + i as int,
                    !closed ==> scan_string(
                        s,
                        i_tok + 1,
                        delim,
                        Seq::empty(),
                        tok_line as int,
                        tok_col as int + 1,
                    ) == scan_string(s, i as int, delim, content@, line as int, column as int),
                    closed ==> scan_string(
                        s,
                        i_tok + 1,
                        delim,
                        Seq::empty(),
                        tok_line as int,
                        tok_col as int + 1,
                    ) == (StrScan::Closed {
                        next: i as int,
                        content: content@,
                        line: line as int,
                        col: column as int,
                    }),
                decreases n - i,
            {
                let c = chars[i];
                if c == '\\' {
                    if i + 1 >= n {
                        let e = TokenizationError::UnclosedString { col: tok_col, line: tok_line };
                        proof {
                            assert(scan(s, i_tok, tok_line as int, tok_col as int) == Err::<
                                Seq<TokenView>,
                                TokenizationError,
                            >(e));
                            lemma_step_err(s, done0, i_tok, tok_line as int, tok_col as int, e);
                        }
                        return Err(e);
                    }
                    let e_src = chars[i + 1];
                    i += 1;
                    update_position(c, &mut column, &mut line);
                    match get_escaped_char(e_src, delim, column, line) {
                        Ok(e) => {
                            push_char(&mut content, e);
                            i += 1;
                            update_position(e_src, &mut column, &mut line);
                        },
                        Err(err) => {
                            proof {
                                assert(scan(s, i_tok, tok_line as int, tok_col as int) == Err::<
                                    Seq<TokenView>,
                                    TokenizationError,
                                >(err));
                                lemma_step_err(s, done0, i_tok, tok_line as int, tok_col as int, err);
                            }
                            return Err(err);
                        },
                    }
                } else if c == delim {
                    i += 1;
                    update_position(c, &mut column, &mut line);
                    closed = true;
                } else {
                    push_char(&mut content, c);
                    i += 1;
                    update_position(c, &mut column, &mut line);
                }
            }
            if !closed {
                let e = TokenizationError::UnclosedString { col: tok_col, line: tok_line };
                proof {
                    assert(scan(s, i_tok, tok_line as int, tok_col as int) == Err::<
                        Seq<TokenView>,
                        TokenizationError,
                    >(e));
                    lemma_step_err(s, done0, i_tok, tok_line as int, tok_col as int, e);
                }
                return Err(e);
            }
            let tok = Token::new(TokenType::String(content), tok_col, tok_line, column, line);
            let ghost outsnap = out@;
            out.push(tok);
            proof {
                assert(scan(s, i_tok, tok_line as int, tok_col as int) == prepend(
                    tok@,
                    scan(s, i as int, line as int, column as int),
                ));
                lemma_views_push(outsnap, tok);
                lemma_step_token(
                    s,
                    done0,
                    tok@,
                    i_tok,
                    tok_line as int,
                    tok_col as int,
                    i as int,
                    line as int,
                    column as int,
                );
            }
            continue ;
        }
        // Whitespace is skipped; anything else is an error.
        if !TokenType::is_ignored_char(ch) {
            let e = TokenizationError::UnrecognizedCharacter { ch, col: tok_col, line: tok_line };
            proof {
                assert(scan(s, i_tok, tok_line as int, tok_col as int) == Err::<
                    Seq<TokenView>,
                    TokenizationError,
                >(e));
                lemma_step_err(s, done0, i_tok, tok_line as int, tok_col as int, e);
            }
            return Err(e);
        }
        proof {
            assert(scan(s, i_tok, tok_line as int, tok_col as int) == scan(
                s,
                i as int,
                line as int,
                column as int,
            ));
            lemma_step_skip(
                s,
                done0,
                i_tok,
                tok_line as int,
                tok_col as int,
                i as int,
                line as int,
                column as int,
            );
        }
    }
    proof {
        assert(scan(s, i as int, line as int, column as int) == Ok::<
            Seq<TokenView>,
            TokenizationError,
        >(Seq::empty()));
        assert(views(out@) + Seq::<TokenView>::empty() =~= views(out@));
    }
    Ok(out)
}

/// Updates column and line information for one consumed character.
pub fn update_position(ch: char, column: &mut FilePosition, line: &mut FilePosition)
    requires
        ch == '\n' ==> *old(line) < u64::MAX,
        ch != '\n' ==> *old(column) < u64::MAX,
    ensures
        *final(column) as int == upd_col(*old(column) as int, ch),
        *final(line) as int == upd_line(*old(line) as int, ch),
{
    if ch == '\n' {
        *column = 0;
        *line = *line + 1;
    } else {
        *column = *column + 1;
    }
}

/// Resolves one escaped character inside a string literal, or reports the
/// invalid escape at the given position.
pub fn get_escaped_char(ch: char, delim: char, col: FilePosition, line: FilePosition) -> (r:
    Result<char, TokenizationError>)
    ensures
        r == match spec_escaped_char(ch, delim) {
            Some(c) => Ok::<char, TokenizationError>(c),
            None => Err::<char, TokenizationError>(
                TokenizationError::InvalidEscapeCharacter { ch, col, line },
            ),
        },
{
    if ch == 'n' {
        Ok('\n')
    } else if ch == 't' {
        Ok('\t')
    } else if ch == 'r' {
        Ok('\r')
    } else if ch == '\\' {
        Ok('\\')
    } else if ch == delim {
        Ok(delim)
    } else {
        Err(TokenizationError::InvalidEscapeCharacter { ch, col, line })
    }
}

} // verus!
