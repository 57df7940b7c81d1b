//! The texts that write a decimal number.
//!
//! ```text
//! decimal  := [sign] ( "inf" | "infinity" | "nan" | number )
//! number   := ( digits | digits "." [digits] | [digits] "." digits ) [exponent]
//! exponent := ( "e" | "E" ) [sign] digits
//! sign     := "+" | "-"
//! ```
//!
//! The three words are read without regard to case. A recipe is numeric
//! where every literal in it is such a text: then each of its literals names
//! a double, and the recipe yields one.

use crate::evaluator::evaluation;
use crate::expression::{Decimal, DecimalView, Expression, Term};
use crate::lexer::{
    characters, digits_end, is_digit, is_space, lemma_digits_end, lemma_digits_run, scan_digits,
    token_at, tokens, tokens_from, Lexeme,
};
use crate::parser::{
    additive, enclosed, joined, multiplicative, operand, product, product_tail, sum, sum_tail,
    syntax,
};
use crate::table::{all_values, lemma_found_is_held};
use vstd::prelude::*;

verus! {

/// Whether a character is a sign.
pub open spec fn is_sign(c: char) -> bool {
    c == '+' || c == '-'
}

/// Whether a character is the small letter `letter` or its capital.
pub open spec fn is_letter(c: char, letter: char) -> bool {
    c == letter || c as u32 + 32 == letter as u32
}

/// Whether the text from `from` on spells the word, in any case. The word
/// is given in small letters.
pub open spec fn spells(s: Seq<char>, from: int, word: Seq<char>) -> bool {
    let rest = s.subrange(from, s.len() as int);
    rest.len() == word.len() && forall|i: int|
        0 <= i < word.len() ==> is_letter(rest[i], #[trigger] word[i])
}

/// Whether the text from `from` on is one of the words `inf`, `infinity`
/// and `nan`, in any case.
pub open spec fn is_special(s: Seq<char>, from: int) -> bool {
    spells(s, from, "inf"@) || spells(s, from, "infinity"@) || spells(s, from, "nan"@)
}

/// Whether the text from `from` on is an exponent.
pub open spec fn is_exponent(s: Seq<char>, from: int) -> bool {
    let digits = if from + 1 < s.len() && is_sign(s[from + 1]) {
        from + 2
    } else {
        from + 1
    };
    &&& 0 <= from < s.len()
    &&& (s[from] == 'e' || s[from] == 'E')
    &&& digits < s.len()
    &&& digits_end(s, digits) == s.len()
}

/// Whether the text from `from` on is a number: digits with at most one
/// point among them, at least one digit, and an exponent or nothing after.
pub open spec fn is_number(s: Seq<char>, from: int) -> bool {
    let point = digits_end(s, from);
    if 0 <= point < s.len() && s[point] == '.' {
        let end = digits_end(s, point + 1);
        (point > from || end > point + 1) && (end == s.len() || is_exponent(s, end))
    } else {
        point > from && (point == s.len() || is_exponent(s, point))
    }
}

/// Whether a text writes a decimal number.
pub open spec fn is_decimal_text(s: Seq<char>) -> bool {
    let from: int = if s.len() > 0 && is_sign(s[0]) {
        1
    } else {
        0
    };
    is_special(s, from) || is_number(s, from)
}

/// Whether every literal of a recipe writes a decimal number.
pub open spec fn numeric(d: DecimalView) -> bool
    decreases d,
{
    match d {
        DecimalView::Literal(text) => is_decimal_text(text),
        DecimalView::Whole(_) => true,
        DecimalView::Negate(x) => numeric(*x),
        DecimalView::SquareRoot(x) => numeric(*x),
        DecimalView::Square(x) => numeric(*x),
        DecimalView::Combine(_, l, r) => numeric(*l) && numeric(*r),
    }
}

/// Whether every decimal of a tree is numeric.
pub open spec fn numeric_tree(term: Term) -> bool
    decreases term,
{
    match term {
        Term::Float(d) => numeric(d),
        Term::Number(_) | Term::Text(_) | Term::Constant(_) => true,
        Term::Negate(inner) => numeric_tree(*inner),
        Term::Parenthesis(inner) => numeric_tree(*inner),
        Term::Call(_, argument) => numeric_tree(*argument),
        Term::BinOp(_, left, right) => numeric_tree(*left) && numeric_tree(*right),
    }
}

fn spelled(chars: &Vec<char>, from: usize, word: &str) -> (b: bool)
    requires
        from <= chars.len(),
    ensures
        b == spells(chars@, from as int, word@),
{
    let letters = characters(word);
    let ghost rest = chars@.subrange(from as int, chars.len() as int);
    if chars.len() - from != letters.len() {
        return false;
    }
    let mut at: usize = 0;
    while at < letters.len()
        invariant
            from <= chars.len(),
            chars.len() - from == letters.len(),
            letters@ == word@,
            rest == chars@.subrange(from as int, chars.len() as int),
            at <= letters.len(),
            forall|i: int| 0 <= i < at ==> is_letter(rest[i], #[trigger] word@[i]),
        decreases letters.len() - at,
    {
        let c = chars[from + at];
        let letter = letters[at];
        if !(c == letter || c as u32 as u64 + 32 == letter as u32 as u64) {
            return false;
        }
        at = at + 1;
    }
    true
}

fn special(chars: &Vec<char>, from: usize) -> (b: bool)
    requires
        from <= chars.len(),
    ensures
        b == is_special(chars@, from as int),
{
    spelled(chars, from, "inf") || spelled(chars, from, "infinity") || spelled(chars, from, "nan")
}

fn exponent(chars: &Vec<char>, from: usize) -> (b: bool)
    requires
        from < chars.len(),
    ensures
        b == is_exponent(chars@, from as int),
{
    if !(chars[from] == 'e' || chars[from] == 'E') {
        return false;
    }
    let digits = if from + 1 < chars.len() && (chars[from + 1] == '+' || chars[from + 1] == '-') {
        from + 2
    } else {
        from + 1
    };
    digits < chars.len() && scan_digits(chars, digits) == chars.len()
}

fn number(chars: &Vec<char>, from: usize) -> (b: bool)
    requires
        from <= chars.len(),
    ensures
        b == is_number(chars@, from as int),
{
    let point = scan_digits(chars, from);
    if point < chars.len() && chars[point] == '.' {
        let end = scan_digits(chars, point + 1);
        (point > from || end > point + 1) && (end == chars.len() || exponent(chars, end))
    } else {
        point > from && (point == chars.len() || exponent(chars, point))
    }
}

/// Whether a text writes a decimal number.
pub fn is_decimal(text: &str) -> (b: bool)
    ensures
        b == is_decimal_text(text@),
{
    let chars = characters(text);
    let from: usize = if chars.len() > 0 && (chars[0] == '+' || chars[0] == '-') {
        1
    } else {
        0
    };
    special(&chars, from) || number(&chars, from)
}

impl Decimal {
    /// Whether every literal of the recipe writes a decimal number.
    pub fn is_numeric(&self) -> (b: bool)
        ensures
            b == numeric(self@),
        decreases self,
    {
        match self {
            Decimal::Literal(text) => is_decimal(text.as_str()),
            Decimal::Whole(_) => true,
            Decimal::Negate(x) => x.is_numeric(),
            Decimal::SquareRoot(x) => x.is_numeric(),
            Decimal::Square(x) => x.is_numeric(),
            Decimal::Combine(_, l, r) => l.is_numeric() && r.is_numeric(),
        }
    }
}

impl Expression {
    /// Whether every decimal of the tree is numeric.
    pub fn is_numeric(&self) -> (b: bool)
        ensures
            b == numeric_tree(self@),
        decreases self,
    {
        match self {
            Expression::Float(d) => d.is_numeric(),
            Expression::Number(_) | Expression::Text(_) | Expression::Constant(_) => true,
            Expression::Negate(inner) => inner.is_numeric(),
            Expression::Parenthesis(inner) => inner.is_numeric(),
            Expression::Call(_, argument) => argument.is_numeric(),
            Expression::BinOp(b) => b.left.is_numeric() && b.right.is_numeric(),
        }
    }
}

/// Whether every decimal token writes a decimal number.
pub open spec fn numeric_tokens(ts: Seq<Lexeme>) -> bool {
    forall|k: int|
        0 <= k < ts.len() ==> ((#[trigger] ts[k]) matches Lexeme::Decimal(text)
            ==> is_decimal_text(text))
}

/// Whether every value that the pairs hold is numeric.
pub open spec fn numeric_pairs(pairs: Seq<(Seq<char>, Term)>) -> bool {
    all_values(pairs, |value: Term| numeric_tree(value))
}

/// Digits, a point and digits write a decimal number.
pub proof fn lemma_literal_is_decimal(s: Seq<char>, point: int)
    requires
        0 < point,
        point + 1 < s.len(),
        forall|i: int| 0 <= i < point ==> is_digit(#[trigger] s[i]),
        s[point] == '.',
        forall|i: int| point < i < s.len() ==> is_digit(#[trigger] s[i]),
    ensures
        is_decimal_text(s),
{
    lemma_digits_end(s, 0, point);
    lemma_digits_end(s, point + 1, s.len() as int);
}

/// The decimal token that is read at `at` writes a decimal number.
proof fn lemma_token_is_numeric(s: Seq<char>, at: int)
    requires
        0 <= at < s.len(),
    ensures
        token_at(s, at) matches Ok((Lexeme::Decimal(text), _)) ==> is_decimal_text(text),
{
    if is_digit(s[at]) {
        let point = digits_end(s, at);
        lemma_digits_run(s, at);
        if point + 1 < s.len() && s[point] == '.' && is_digit(s[point + 1]) {
            let stop = digits_end(s, point + 1);
            lemma_digits_run(s, point + 1);
            lemma_literal_is_decimal(s.subrange(at, stop), point - at);
        }
    }
}

/// Every decimal token of a text writes a decimal number.
pub proof fn lemma_tokens_are_numeric(s: Seq<char>, at: int)
    requires
        0 <= at <= s.len(),
    ensures
        tokens_from(s, at) matches Ok(ts) ==> numeric_tokens(ts),
    decreases s.len() - at,
{
    if at < s.len() {
        if is_space(s[at]) {
            lemma_tokens_are_numeric(s, at + 1);
        } else {
            lemma_token_is_numeric(s, at);
            match token_at(s, at) {
                Ok((token, next)) => {
                    if at < next <= s.len() {
                        lemma_tokens_are_numeric(s, next);
                        match tokens_from(s, next) {
                            Ok(rest) => {
                                assert(numeric_tokens(seq![token] + rest));
                            },
                            Err(_) => {},
                        }
                    }
                },
                Err(_) => {},
            }
        }
    }
}

proof fn lemma_enclosed_is_numeric(ts: Seq<Lexeme>, at: int)
    requires
        numeric_tokens(ts),
    ensures
        enclosed(ts, at) matches Ok((term, _)) ==> numeric_tree(term),
    decreases ts.len() - at, 0nat,
{
    if 0 <= at < ts.len() {
        lemma_sum_is_numeric(ts, at + 1);
    }
}

proof fn lemma_operand_is_numeric(ts: Seq<Lexeme>, at: int)
    requires
        numeric_tokens(ts),
    ensures
        operand(ts, at) matches Ok((term, _)) ==> numeric_tree(term),
    decreases ts.len() - at, 1nat,
{
    if 0 <= at < ts.len() {
        match ts[at] {
            Lexeme::Name(_) => {
                if at + 1 < ts.len() && ts[at + 1] is Open {
                    lemma_enclosed_is_numeric(ts, at + 1);
                }
            },
            Lexeme::Open => {
                lemma_enclosed_is_numeric(ts, at);
            },
            Lexeme::Minus => {
                lemma_operand_is_numeric(ts, at + 1);
            },
            _ => {},
        }
    }
}

proof fn lemma_product_tail_is_numeric(ts: Seq<Lexeme>, at: int, left: Term)
    requires
        numeric_tokens(ts),
        numeric_tree(left),
    ensures
        product_tail(ts, at, left) matches Ok((term, _)) ==> numeric_tree(term),
    decreases ts.len() - at, 0nat,
{
    if 0 <= at < ts.len() && multiplicative(ts[at]) is Some {
        lemma_operand_is_numeric(ts, at + 1);
        match operand(ts, at + 1) {
            Ok((right, next)) => {
                if at < next <= ts.len() {
                    lemma_product_tail_is_numeric(
                        ts,
                        next,
                        joined(multiplicative(ts[at])->0, left, right),
                    );
                }
            },
            Err(_) => {},
        }
    }
}

proof fn lemma_product_is_numeric(ts: Seq<Lexeme>, at: int)
    requires
        numeric_tokens(ts),
    ensures
        product(ts, at) matches Ok((term, _)) ==> numeric_tree(term),
    decreases ts.len() - at, 2nat,
{
    lemma_operand_is_numeric(ts, at);
    match operand(ts, at) {
        Ok((left, next)) => {
            if at < next <= ts.len() {
                lemma_product_tail_is_numeric(ts, next, left);
            }
        },
        Err(_) => {},
    }
}

proof fn lemma_sum_tail_is_numeric(ts: Seq<Lexeme>, at: int, left: Term)
    requires
        numeric_tokens(ts),
        numeric_tree(left),
    ensures
        sum_tail(ts, at, left) matches Ok((term, _)) ==> numeric_tree(term),
    decreases ts.len() - at, 0nat,
{
    if 0 <= at < ts.len() && additive(ts[at]) is Some {
        lemma_product_is_numeric(ts, at + 1);
        match product(ts, at + 1) {
            Ok((right, next)) => {
                if at < next <= ts.len() {
                    lemma_sum_tail_is_numeric(ts, next, joined(additive(ts[at])->0, left, right));
                }
            },
            Err(_) => {},
        }
    }
}

proof fn lemma_sum_is_numeric(ts: Seq<Lexeme>, at: int)
    requires
        numeric_tokens(ts),
    ensures
        sum(ts, at) matches Ok((term, _)) ==> numeric_tree(term),
    decreases ts.len() - at, 3nat,
{
    lemma_product_is_numeric(ts, at);
    match product(ts, at) {
        Ok((left, next)) => {
            if at < next <= ts.len() {
                lemma_sum_tail_is_numeric(ts, next, left);
            }
        },
        Err(_) => {},
    }
}

/// Every decimal of a parsed tree is numeric: the parser makes no literal
/// that does not write a decimal number.
pub proof fn lemma_parsed_is_numeric(text: Seq<char>)
    ensures
        syntax(text) matches Ok(tree) ==> numeric_tree(tree),
{
    lemma_tokens_are_numeric(text, 0);
    match tokens(text) {
        Ok(ts) => {
            lemma_sum_is_numeric(ts, 0);
        },
        Err(_) => {},
    }
}

/// Evaluation makes no decimal that is not numeric: under a table of numeric
/// values, the value of a numeric tree is numeric.
pub proof fn lemma_value_is_numeric(term: Term, pairs: Seq<(Seq<char>, Term)>)
    requires
        numeric_tree(term),
        numeric_pairs(pairs),
    ensures
        evaluation(term, pairs) matches Ok(value) ==> numeric_tree(value),
    decreases term,
{
    reveal_with_fuel(numeric, 3);
    match term {
        Term::Number(_) | Term::Float(_) | Term::Text(_) => {},
        Term::Constant(name) => {
            lemma_found_is_held(pairs, name, |value: Term| numeric_tree(value));
        },
        Term::Parenthesis(inner) => {
            lemma_value_is_numeric(*inner, pairs);
        },
        Term::Negate(inner) => {
            lemma_value_is_numeric(*inner, pairs);
        },
        Term::Call(_, argument) => {
            lemma_value_is_numeric(*argument, pairs);
        },
        Term::BinOp(_, left, right) => {
            lemma_value_is_numeric(*left, pairs);
            lemma_value_is_numeric(*right, pairs);
        },
    }
}

} // verus!
