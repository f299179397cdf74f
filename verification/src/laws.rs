//! Laws of the scanner, proved once and for all inputs.

use vstd::prelude::*;
use crate::errors::TokenizationError;
use crate::scanner::{scan, scan_int, spec_tokenize, upd_col, upd_line, IntScan};
use crate::token::TokenView;
use crate::token_type::{
    digit_value,
    spec_is_digit,
    spec_is_identifier_char,
    spec_is_ignored_char,
    spec_is_string_delimiter,
    spec_single_char_token,
    spec_two_char_token,
    TokenTypeView,
};

verus! {

/// Ten to the given power.
pub open spec fn pow10(n: nat) -> int
    decreases n,
{
    if n == 0 {
        1
    } else {
        10 * pow10((n - 1) as nat)
    }
}

/// The value of a digit sequence read as a decimal numeral, most significant
/// digit first.
pub open spec fn decimal_value(ds: Seq<char>) -> int
    decreases ds.len(),
{
    if ds.len() == 0 {
        0
    } else {
        digit_value(ds[0]) * pow10((ds.len() - 1) as nat) + decimal_value(ds.drop_first())
    }
}

/// The digits of a character sequence, in order, with everything else (in
/// particular underscores) dropped.
pub open spec fn digits_of(s: Seq<char>) -> Seq<char>
    decreases s.len(),
{
    if s.len() == 0 {
        Seq::empty()
    } else if spec_is_digit(s[0]) {
        seq![s[0]] + digits_of(s.drop_first())
    } else {
        digits_of(s.drop_first())
    }
}

/// Decimal accumulation over a digit sequence, starting from `v`: the order
/// in which the scanner folds digits into a value.
spec fn dec_acc(v: int, ds: Seq<char>) -> int
    decreases ds.len(),
{
    if ds.len() == 0 {
        v
    } else {
        dec_acc(v * 10 + digit_value(ds[0]), ds.drop_first())
    }
}

proof fn lemma_dec_acc(v: int, ds: Seq<char>)
    ensures
        dec_acc(v, ds) == v * pow10(ds.len()) + decimal_value(ds),
    decreases ds.len(),
{
    if ds.len() == 0 {
    } else {
        let d = digit_value(ds[0]);
        let p = pow10((ds.len() - 1) as nat);
        lemma_dec_acc(v * 10 + d, ds.drop_first());
        assert((v * 10 + d) * p == v * (10 * p) + d * p) by (nonlinear_arith);
    }
}

proof fn lemma_dec_acc_lb(v: int, ds: Seq<char>)
    requires
        v >= 0,
        forall|j: int| 0 <= j < ds.len() ==> spec_is_digit(ds[j]),
    ensures
        dec_acc(v, ds) >= v,
    decreases ds.len(),
{
    if ds.len() > 0 {
        assert(spec_is_digit(ds[0]));
        lemma_dec_acc_lb(v * 10 + digit_value(ds[0]), ds.drop_first());
    }
}

proof fn lemma_digits_of_digits(s: Seq<char>)
    ensures
        forall|j: int| 0 <= j < digits_of(s).len() ==> spec_is_digit(digits_of(s)[j]),
    decreases s.len(),
{
    if s.len() > 0 {
        lemma_digits_of_digits(s.drop_first());
        assert forall|j: int| 0 <= j < digits_of(s).len() implies spec_is_digit(
            digits_of(s)[j],
        ) by {
            if spec_is_digit(s[0]) {
                if j == 0 {
                    assert(digits_of(s)[0] == s[0]);
                } else {
                    assert(digits_of(s)[j] == digits_of(s.drop_first())[j - 1]);
                }
            } else {
                assert(digits_of(s)[j] == digits_of(s.drop_first())[j]);
            }
        }
    }
}

proof fn lemma_decimal_value_push(ds: Seq<char>, c: char)
    ensures
        decimal_value(ds.push(c)) == decimal_value(ds) * 10 + digit_value(c),
    decreases ds.len(),
{
    let e = ds.push(c);
    if ds.len() == 0 {
        assert(e[0] == c);
        assert(e.drop_first() =~= Seq::<char>::empty());
        assert(decimal_value(e.drop_first()) == 0);
        assert(decimal_value(e) == digit_value(c) * pow10(0) + decimal_value(e.drop_first()));
        assert(pow10(0) == 1);
        assert(decimal_value(ds) == 0);
    } else {
        assert(e[0] == ds[0]);
        assert(e.drop_first() =~= ds.drop_first().push(c));
        lemma_decimal_value_push(ds.drop_first(), c);
        let d0 = digit_value(ds[0]);
        let p = pow10((ds.len() - 1) as nat);
        assert(decimal_value(e) == d0 * pow10((e.len() - 1) as nat) + decimal_value(
            e.drop_first(),
        ));
        assert(pow10((e.len() - 1) as nat) == 10 * p);
        assert(decimal_value(e.drop_first()) == decimal_value(ds.drop_first()) * 10 + digit_value(
            c,
        ));
        assert(decimal_value(ds) == d0 * p + decimal_value(ds.drop_first()));
        assert(d0 * (10 * p) == (d0 * p) * 10) by (nonlinear_arith);
        assert(decimal_value(e) == (d0 * p) * 10 + decimal_value(ds.drop_first()) * 10
            + digit_value(c));
    }
}

proof fn lemma_scan_int_all(s: Seq<char>, i: int, v: int)
    requires
        0 <= i <= s.len(),
        v >= 0,
        forall|j: int| i <= j < s.len() ==> spec_is_digit(s[j]) || s[j] == '_',
        dec_acc(v, digits_of(s.subrange(i, s.len() as int))) <= i64::MAX,
    ensures
        scan_int(s, i, v) == (IntScan::Done {
            next: s.len() as int,
            value: dec_acc(v, digits_of(s.subrange(i, s.len() as int))),
        }),
    decreases s.len() - i,
{
    let rest = s.subrange(i, s.len() as int);
    if i == s.len() {
        assert(rest =~= Seq::<char>::empty());
    } else {
        assert(rest[0] == s[i]);
        assert(rest.drop_first() =~= s.subrange(i + 1, s.len() as int));
        let tail_digits = digits_of(s.subrange(i + 1, s.len() as int));
        lemma_digits_of_digits(s.subrange(i + 1, s.len() as int));
        if spec_is_digit(s[i]) {
            let v2 = v * 10 + digit_value(s[i]);
            assert(digits_of(rest) == seq![s[i]] + tail_digits);
            assert((seq![s[i]] + tail_digits).drop_first() =~= tail_digits);
            assert(dec_acc(v, digits_of(rest)) == dec_acc(v2, tail_digits));
            lemma_dec_acc_lb(v2, tail_digits);
            lemma_scan_int_all(s, i + 1, v2);
        } else {
            assert(s[i] == '_');
            assert(digits_of(rest) == tail_digits);
            lemma_scan_int_all(s, i + 1, v);
        }
    }
}

proof fn lemma_scan_int_overflow_h(s: Seq<char>, i: int, v: int, k: int)
    requires
        0 <= i <= k < s.len(),
        forall|j: int| i <= j <= k ==> spec_is_digit(s[j]),
        v >= 0,
        dec_acc(v, s.subrange(i, k)) <= i64::MAX,
        dec_acc(v, s.subrange(i, k)) * 10 + digit_value(s[k]) > i64::MAX,
    ensures
        scan_int(s, i, v) == (IntScan::Overflow { at: k }),
    decreases k - i,
{
    if i == k {
        assert(s.subrange(i, k) =~= Seq::<char>::empty());
    } else {
        let v2 = v * 10 + digit_value(s[i]);
        assert(s.subrange(i, k)[0] == s[i]);
        assert(s.subrange(i, k).drop_first() =~= s.subrange(i + 1, k));
        assert(dec_acc(v, s.subrange(i, k)) == dec_acc(v2, s.subrange(i + 1, k)));
        assert(forall|j: int|
            0 <= j < s.subrange(i + 1, k).len() ==> spec_is_digit(
                #[trigger] s.subrange(i + 1, k)[j],
            ));
        lemma_dec_acc_lb(v2, s.subrange(i + 1, k));
        lemma_scan_int_overflow_h(s, i + 1, v2, k);
    }
}

proof fn lemma_scan_whitespace(s: Seq<char>, i: int, line: int, col: int)
    requires
        0 <= i <= s.len(),
        forall|j: int| i <= j < s.len() ==> spec_is_ignored_char(s[j]),
    ensures
        scan(s, i, line, col) == Ok::<Seq<TokenView>, TokenizationError>(Seq::<TokenView>::empty()),
    decreases s.len() - i,
{
    if i < s.len() {
        let c = s[i];
        assert(spec_is_ignored_char(c));
        assert(spec_two_char_token(c, if i + 1 < s.len() {
            s[i + 1]
        } else {
            c
        }) is None);
        assert(!spec_is_digit(c));
        assert(c != '.');
        assert(spec_single_char_token(c) is None);
        assert(!spec_is_identifier_char(c, true));
        assert(!spec_is_string_delimiter(c));
        lemma_scan_whitespace(s, i + 1, upd_line(line, c), upd_col(col, c));
    }
}

/// An input of whitespace alone tokenizes to the empty token sequence, with
/// no error.
pub proof fn lemma_whitespace_only(s: Seq<char>)
    requires
        forall|j: int| 0 <= j < s.len() ==> spec_is_ignored_char(s[j]),
    ensures
        spec_tokenize(s) == Ok::<Seq<TokenView>, TokenizationError>(Seq::<TokenView>::empty()),
{
    lemma_scan_whitespace(s, 0, 1, 0);
}

/// A whole input that is one integer literal (digits and underscores,
/// starting with a digit, in range) tokenizes to exactly one integer token:
/// the underscores are ignored and the value is the decimal value of the
/// digits read in order.
pub proof fn lemma_integer_literal(s: Seq<char>)
    requires
        s.len() > 0,
        spec_is_digit(s[0]),
        forall|j: int| 0 <= j < s.len() ==> spec_is_digit(s[j]) || s[j] == '_',
        decimal_value(digits_of(s)) <= i64::MAX,
    ensures
        spec_tokenize(s) == Ok::<Seq<TokenView>, TokenizationError>(
            seq![
                TokenView {
                    token: TokenTypeView::Int(decimal_value(digits_of(s))),
                    column: 0,
                    line: 1,
                    end_column: s.len() as int,
                    end_line: 1,
                },
            ],
        ),
{
    let d0 = digit_value(s[0]);
    let tail = s.subrange(1, s.len() as int);
    assert(s.drop_first() =~= tail);
    assert(digits_of(s) == seq![s[0]] + digits_of(tail));
    assert((seq![s[0]] + digits_of(tail)).drop_first() =~= digits_of(tail));
    assert(digits_of(s)[0] == s[0]);
    lemma_dec_acc(d0, digits_of(tail));
    assert(decimal_value(digits_of(s)) == dec_acc(d0, digits_of(tail)));
    lemma_scan_int_all(s, 1, d0);
    let value = dec_acc(d0, digits_of(tail));
    let t = TokenView {
        token: TokenTypeView::Int(value),
        column: 0,
        line: 1,
        end_column: s.len() as int,
        end_line: 1,
    };
    assert(scan(s, s.len() as int, 1, s.len() as int) == Ok::<Seq<TokenView>, TokenizationError>(
        Seq::<TokenView>::empty(),
    ));
    assert(seq![t] + Seq::<TokenView>::empty() =~= seq![t]);
}

/// A literal of digits whose value leaves the 64-bit signed range is a
/// numeric-overflow error at the position of the overflowing digit — the
/// first digit `k` whose accumulation exceeds the range — and never a
/// silently wrapped value.
pub proof fn lemma_integer_overflow(s: Seq<char>, k: int)
    requires
        0 < k < s.len(),
        forall|j: int| 0 <= j < s.len() ==> spec_is_digit(s[j]),
        decimal_value(s.subrange(0, k)) <= i64::MAX,
        decimal_value(s.subrange(0, k + 1)) > i64::MAX,
    ensures
        spec_tokenize(s) == Err::<Seq<TokenView>, TokenizationError>(
            TokenizationError::NumOutOfRangeError { col: k as u64, line: 1 },
        ),
{
    let d0 = digit_value(s[0]);
    let pre = s.subrange(0, k);
    assert(pre[0] == s[0]);
    assert(pre.drop_first() =~= s.subrange(1, k));
    lemma_dec_acc(d0, s.subrange(1, k));
    assert(dec_acc(d0, s.subrange(1, k)) == decimal_value(pre));
    assert(s.subrange(0, k + 1) =~= pre.push(s[k]));
    lemma_decimal_value_push(pre, s[k]);
    lemma_scan_int_overflow_h(s, 1, d0, k);
}

/// Tokenization is deterministic: the outcome is a function of the input text
/// alone, with no state carried between calls, so any two results obtained
/// for the same input are identical.
pub proof fn lemma_tokenize_deterministic(
    s: Seq<char>,
    r1: Result<Seq<TokenView>, TokenizationError>,
    r2: Result<Seq<TokenView>, TokenizationError>,
)
    requires
        r1 == spec_tokenize(s),
        r2 == spec_tokenize(s),
    ensures
        r1 == r2,
{
}

} // verus!

