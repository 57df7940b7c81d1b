//! Literals survive the round trip. A text that writes a literal evaluates
//! to that literal, whatever the table holds, and is rendered as the literal
//! is. What an integer is rendered as evaluates to the integer again, the
//! least one excepted; a text between quotes parses to the text; digits, a
//! point and digits parse to the decimal literal of that text.

use crate::evaluator::{evaluation, is_literal, Failure};
use crate::expression::{DecimalView, Term};
use crate::lexer::{
    is_digit, lemma_digits_end, lemma_number_value_same, lemma_quote_at, number_value, tokens,
    tokens_from, Lexeme, ParseError,
};
use crate::parser::{operand, parse, syntax};
use crate::render::{digits_of, integer_text, rendering};
use vstd::prelude::*;

verus! {

/// The digits of a number are digits, and they write the number.
pub proof fn lemma_digits_of(n: nat)
    ensures
        digits_of(n).len() >= 1,
        forall|i: int| 0 <= i < digits_of(n).len() ==> is_digit(#[trigger] digits_of(n)[i]),
        number_value(digits_of(n), 0, digits_of(n).len() as int) == n,
    decreases n,
{
    let s = digits_of(n);
    if n < 10 {
        assert(number_value(s, 0, 0) == 0);
    } else {
        let shorter = digits_of(n / 10);
        let last = s.len() - 1;
        lemma_digits_of(n / 10);
        assert(s.subrange(0, last) =~= shorter.subrange(0, last));
        lemma_number_value_same(s, 0, shorter, 0, last);
    }
}

/// The digits of a number are one token: the number.
pub proof fn lemma_tokens_of_digits(n: nat)
    requires
        n <= i64::MAX,
    ensures
        tokens(digits_of(n)) == Ok::<Seq<Lexeme>, ParseError>(seq![Lexeme::Number(n as i64)]),
{
    let s = digits_of(n);
    let length = s.len() as int;
    lemma_digits_of(n);
    lemma_digits_end(s, 0, length);
    assert(tokens_from(s, length) == Ok::<Seq<Lexeme>, ParseError>(Seq::empty()));
    assert(seq![Lexeme::Number(n as i64)] + Seq::<Lexeme>::empty() =~= seq![
        Lexeme::Number(n as i64),
    ]);
}

/// A minus sign and the digits of a number are two tokens.
pub proof fn lemma_tokens_of_negative(n: nat)
    requires
        n <= i64::MAX,
    ensures
        tokens(seq!['-'] + digits_of(n)) == Ok::<Seq<Lexeme>, ParseError>(
            seq![Lexeme::Minus, Lexeme::Number(n as i64)],
        ),
{
    let digits = digits_of(n);
    let s = seq!['-'] + digits;
    let length = s.len() as int;
    lemma_digits_of(n);
    assert forall|i: int| 1 <= i < length implies is_digit(#[trigger] s[i]) by {
        assert(s[i] == digits[i - 1]);
    }
    lemma_digits_end(s, 1, length);
    assert(s.subrange(1, length) =~= digits.subrange(0, length - 1));
    lemma_number_value_same(s, 1, digits, 0, length - 1);
    assert(tokens_from(s, length) == Ok::<Seq<Lexeme>, ParseError>(Seq::empty()));
    assert(tokens_from(s, 1) == Ok::<Seq<Lexeme>, ParseError>(seq![Lexeme::Number(n as i64)]))
        by {
        assert(seq![Lexeme::Number(n as i64)] + Seq::<Lexeme>::empty() =~= seq![
            Lexeme::Number(n as i64),
        ]);
    }
    assert(seq![Lexeme::Minus] + seq![Lexeme::Number(n as i64)] =~= seq![
        Lexeme::Minus,
        Lexeme::Number(n as i64),
    ]);
}

/// A single token that is a literal parses to the literal.
proof fn lemma_parse_of_one(token: Lexeme, term: Term)
    requires
        operand(seq![token], 0) == Ok::<(Term, int), ParseError>((term, 1)),
    ensures
        parse(seq![token]) == Ok::<Term, ParseError>(term),
{
}

/// A number that is not negative parses back from its rendering.
pub proof fn lemma_number_parses_back(n: i64)
    requires
        n >= 0,
    ensures
        syntax(rendering(Term::Number(n))) == Ok::<Term, ParseError>(Term::Number(n)),
{
    lemma_tokens_of_digits(n as nat);
    lemma_parse_of_one(Lexeme::Number(n), Term::Number(n));
}

/// A negative number is rendered as the negation of its magnitude, which
/// evaluates to the number again. The least number is left out: its
/// magnitude is no number of 64 bits.
pub proof fn lemma_negative_number_round_trip(n: i64, pairs: Seq<(Seq<char>, Term)>)
    requires
        i64::MIN < n < 0,
    ensures
        syntax(rendering(Term::Number(n))) == Ok::<Term, ParseError>(
            Term::Negate(Box::new(Term::Number((-n) as i64))),
        ),
        evaluation(Term::Negate(Box::new(Term::Number((-n) as i64))), pairs) == Ok::<
            Term,
            Failure,
        >(Term::Number(n)),
{
    let m = (-n) as i64;
    lemma_tokens_of_negative(m as nat);
    assert(evaluation(Term::Number(m), pairs) == Ok::<Term, Failure>(Term::Number(m)));
}

/// A text between two quotes parses to the text, if it holds no quote.
pub proof fn lemma_quoted_text_parses(text: Seq<char>)
    requires
        forall|i: int| 0 <= i < text.len() ==> #[trigger] text[i] != '"',
    ensures
        syntax(seq!['"'] + text + seq!['"']) == Ok::<Term, ParseError>(Term::Text(text)),
{
    let s = seq!['"'] + text + seq!['"'];
    let close = text.len() as int + 1;
    assert forall|i: int| 1 <= i < close implies #[trigger] s[i] != '"' by {
        assert(s[i] == text[i - 1]);
    }
    lemma_quote_at(s, 1, close);
    assert(s.subrange(1, close) =~= text);
    assert(tokens_from(s, close + 1) == Ok::<Seq<Lexeme>, ParseError>(Seq::empty()));
    lemma_parse_of_one(Lexeme::Text(text), Term::Text(text));
}

/// Digits, a point and digits parse to the decimal literal of that text.
pub proof fn lemma_decimal_parses(whole: Seq<char>, fraction: Seq<char>)
    requires
        whole.len() > 0,
        fraction.len() > 0,
        forall|i: int| 0 <= i < whole.len() ==> is_digit(#[trigger] whole[i]),
        forall|i: int| 0 <= i < fraction.len() ==> is_digit(#[trigger] fraction[i]),
    ensures
        syntax(whole + seq!['.'] + fraction) == Ok::<Term, ParseError>(
            Term::Float(DecimalView::Literal(whole + seq!['.'] + fraction)),
        ),
{
    let s = whole + seq!['.'] + fraction;
    let point = whole.len() as int;
    let length = s.len() as int;
    assert forall|i: int| 0 <= i < point implies is_digit(#[trigger] s[i]) by {
        assert(s[i] == whole[i]);
    }
    assert forall|i: int| point + 1 <= i < length implies is_digit(#[trigger] s[i]) by {
        assert(s[i] == fraction[i - point - 1]);
    }
    lemma_digits_end(s, 0, point);
    lemma_digits_end(s, point + 1, length);
    assert(s.subrange(0, length) =~= s);
    let token = Lexeme::Decimal(s);
    assert(tokens_from(s, length) == Ok::<Seq<Lexeme>, ParseError>(Seq::empty()));
    lemma_parse_of_one(token, Term::Float(DecimalView::Literal(s)));
}

/// A text that writes a literal is rendered, after parsing and evaluation,
/// as the literal is rendered: the value of a literal is the literal.
pub proof fn lemma_literal_round_trip(text: Seq<char>, literal: Term, pairs: Seq<(Seq<char>, Term)>)
    requires
        syntax(text) == Ok::<Term, ParseError>(literal),
        is_literal(literal),
    ensures
        evaluation(syntax(text)->Ok_0, pairs) == Ok::<Term, Failure>(literal),
        rendering(evaluation(syntax(text)->Ok_0, pairs)->Ok_0) == rendering(literal),
{
}

/// Every number but the least is rendered as a text that evaluates to the
/// number: rendering, parsing and evaluating it gives the number back.
pub proof fn lemma_integer_round_trip(n: i64, pairs: Seq<(Seq<char>, Term)>)
    requires
        n > i64::MIN,
    ensures
        syntax(integer_text(n as int)) matches Ok(tree) && evaluation(tree, pairs) == Ok::<
            Term,
            Failure,
        >(Term::Number(n)),
{
    if n >= 0 {
        lemma_number_parses_back(n);
    } else {
        lemma_negative_number_round_trip(n, pairs);
    }
}

} // verus!
