//! The tokens of the expression language.
//!
//! ```text
//! number  := digit+                                  at most i64::MAX
//! decimal := digit+ "." digit+
//! text    := '"' { any character but '"' } '"'
//! name    := ( letter | "_" ) { letter | digit | "_" }
//! sign    := "+" | "-" | "*" | "/" | "(" | ")"
//! ```
//!
//! Letters and digits are those of ASCII. Each token is the longest that
//! starts where it starts. Blanks, tabs and line ends separate tokens and
//! are otherwise ignored. [`tokens`] is the definition; [`tokenize`]
//! computes it.

use vstd::prelude::*;
use vstd::string::{StrSliceExecFns, StringExecFns};

verus! {

/// Why a text is not an expression.
#[derive(Debug, Clone, Copy, PartialEq, Eq, Structural)]
pub enum ParseError {
    /// The text holds no token at all.
    Empty,
    /// A character that no token starts with.
    UnexpectedCharacter,
    /// A text literal whose closing quote is missing.
    UnterminatedText,
    /// An integer literal above `i64::MAX`.
    NumberTooLarge,
    /// The text ends where an operand is due, as after a dangling operator.
    UnexpectedEnd,
    /// An operator or a closing parenthesis stands where an operand is due.
    UnexpectedToken,
    /// A name other than `sqrt` and `pow2` is followed by an argument.
    UnknownFunction,
    /// `sqrt` or `pow2` is not followed by an argument in parentheses.
    MissingArgument,
    /// A parenthesis is opened and not closed, or closed and not opened.
    UnbalancedParenthesis,
    /// A complete expression is followed by more tokens.
    TrailingInput,
}

/// A token.
#[derive(Debug, PartialEq)]
pub enum Token {
    /// An integer literal, by its value.
    Number(i64),
    /// A decimal literal, by its text: digits, a point, digits.
    Decimal(String),
    /// A text literal, by what stands between its quotes.
    Text(String),
    /// An identifier.
    Name(String),
    Plus,
    Minus,
    Star,
    Slash,
    Open,
    Close,
}

/// The model of a [`Token`].
pub enum Lexeme {
    Number(i64),
    Decimal(Seq<char>),
    Text(Seq<char>),
    Name(Seq<char>),
    Plus,
    Minus,
    Star,
    Slash,
    Open,
    Close,
}

impl View for Token {
    type V = Lexeme;

    open spec fn view(&self) -> Lexeme {
        match self {
            Token::Number(n) => Lexeme::Number(*n),
            Token::Decimal(s) => Lexeme::Decimal(s@),
            Token::Text(s) => Lexeme::Text(s@),
            Token::Name(s) => Lexeme::Name(s@),
            Token::Plus => Lexeme::Plus,
            Token::Minus => Lexeme::Minus,
            Token::Star => Lexeme::Star,
            Token::Slash => Lexeme::Slash,
            Token::Open => Lexeme::Open,
            Token::Close => Lexeme::Close,
        }
    }
}

/// The models of a sequence of tokens.
pub open spec fn lexemes(tokens: Seq<Token>) -> Seq<Lexeme> {
    Seq::new(tokens.len(), |i: int| tokens[i]@)
}

/// Whether a character is white space: a blank, a tab or a line end.
pub open spec fn is_space(c: char) -> bool {
    c == ' ' || c == '\t' || c == '\n' || c == '\r'
}

/// Whether a character is an ASCII digit.
pub open spec fn is_digit(c: char) -> bool {
    '0' <= c <= '9'
}

/// Whether an identifier can start with the character.
pub open spec fn is_name_start(c: char) -> bool {
    'a' <= c <= 'z' || 'A' <= c <= 'Z' || c == '_'
}

/// Whether an identifier can go on with the character.
pub open spec fn is_name_part(c: char) -> bool {
    is_name_start(c) || is_digit(c)
}

/// Where the digits that start at `from` end.
pub open spec fn digits_end(s: Seq<char>, from: int) -> int
    decreases s.len() - from,
{
    if 0 <= from < s.len() && is_digit(s[from]) {
        digits_end(s, from + 1)
    } else {
        from
    }
}

/// Where the identifier that starts at `from` ends.
pub open spec fn name_end(s: Seq<char>, from: int) -> int
    decreases s.len() - from,
{
    if 0 <= from < s.len() && is_name_part(s[from]) {
        name_end(s, from + 1)
    } else {
        from
    }
}

/// The place of the first quote at or after `from`, or the length of the
/// text if there is none.
pub open spec fn quote_at(s: Seq<char>, from: int) -> int
    decreases s.len() - from,
{
    if 0 <= from < s.len() && s[from] != '"' {
        quote_at(s, from + 1)
    } else {
        from
    }
}

/// The number that the digits from `from` up to `to` write in base ten.
pub open spec fn number_value(s: Seq<char>, from: int, to: int) -> nat
    decreases to - from,
{
    if to <= from {
        0
    } else {
        number_value(s, from, to - 1) * 10 + (s[to - 1] as u32 - '0' as u32) as nat
    }
}

/// The token that starts at `at`, and where it ends.
pub open spec fn token_at(s: Seq<char>, at: int) -> Result<(Lexeme, int), ParseError> {
    let c = s[at];
    if is_digit(c) {
        let end = digits_end(s, at);
        if end + 1 < s.len() && s[end] == '.' && is_digit(s[end + 1]) {
            let stop = digits_end(s, end + 1);
            Ok((Lexeme::Decimal(s.subrange(at, stop)), stop))
        } else if number_value(s, at, end) > i64::MAX {
            Err(ParseError::NumberTooLarge)
        } else {
            Ok((Lexeme::Number(number_value(s, at, end) as i64), end))
        }
    } else if is_name_start(c) {
        let end = name_end(s, at);
        Ok((Lexeme::Name(s.subrange(at, end)), end))
    } else if c == '"' {
        let close = quote_at(s, at + 1);
        if close >= s.len() {
            Err(ParseError::UnterminatedText)
        } else {
            Ok((Lexeme::Text(s.subrange(at + 1, close)), close + 1))
        }
    } else if c == '+' {
        Ok((Lexeme::Plus, at + 1))
    } else if c == '-' {
        Ok((Lexeme::Minus, at + 1))
    } else if c == '*' {
        Ok((Lexeme::Star, at + 1))
    } else if c == '/' {
        Ok((Lexeme::Slash, at + 1))
    } else if c == '(' {
        Ok((Lexeme::Open, at + 1))
    } else if c == ')' {
        Ok((Lexeme::Close, at + 1))
    } else {
        Err(ParseError::UnexpectedCharacter)
    }
}

/// `first` followed by what `rest` holds, if it holds tokens.
pub open spec fn followed_by(first: Seq<Lexeme>, rest: Result<Seq<Lexeme>, ParseError>) -> Result<
    Seq<Lexeme>,
    ParseError,
> {
    match rest {
        Ok(more) => Ok(first + more),
        Err(e) => Err(e),
    }
}

/// The tokens of the text from `at` on, or the first fault in it.
pub open spec fn tokens_from(s: Seq<char>, at: int) -> Result<Seq<Lexeme>, ParseError>
    decreases s.len() - at,
{
    if at < 0 || at >= s.len() {
        Ok(Seq::empty())
    } else if is_space(s[at]) {
        tokens_from(s, at + 1)
    } else {
        match token_at(s, at) {
            Ok((token, next)) => if at < next <= s.len() {
                followed_by(seq![token], tokens_from(s, next))
            } else {
                Err(ParseError::UnexpectedCharacter)
            },
            Err(e) => Err(e),
        }
    }
}

/// The tokens of a text, or the first fault in it.
pub open spec fn tokens(s: Seq<char>) -> Result<Seq<Lexeme>, ParseError> {
    tokens_from(s, 0)
}

/// Digits that run from `from` up to `to`, and no further, end at `to`.
pub proof fn lemma_digits_end(s: Seq<char>, from: int, to: int)
    requires
        0 <= from <= to <= s.len(),
        forall|i: int| from <= i < to ==> is_digit(#[trigger] s[i]),
        to == s.len() || !is_digit(s[to]),
    ensures
        digits_end(s, from) == to,
    decreases to - from,
{
    if from < to {
        lemma_digits_end(s, from + 1, to);
    }
}

/// With no quote from `from` up to `to`, and one at `to` or the end of the
/// text there, the first quote is found at `to`.
pub proof fn lemma_quote_at(s: Seq<char>, from: int, to: int)
    requires
        0 <= from <= to <= s.len(),
        forall|i: int| from <= i < to ==> #[trigger] s[i] != '"',
        to == s.len() || s[to] == '"',
    ensures
        quote_at(s, from) == to,
    decreases to - from,
{
    if from < to {
        lemma_quote_at(s, from + 1, to);
    }
}

/// The same digits write the same number, wherever they stand.
pub proof fn lemma_number_value_same(
    a: Seq<char>,
    from_a: int,
    b: Seq<char>,
    from_b: int,
    length: int,
)
    requires
        length >= 0,
        0 <= from_a,
        from_a + length <= a.len(),
        0 <= from_b,
        from_b + length <= b.len(),
        a.subrange(from_a, from_a + length) == b.subrange(from_b, from_b + length),
    ensures
        number_value(a, from_a, from_a + length) == number_value(b, from_b, from_b + length),
    decreases length,
{
    if length > 0 {
        let part_a = a.subrange(from_a, from_a + length);
        let part_b = b.subrange(from_b, from_b + length);
        assert(a.subrange(from_a, from_a + length - 1) =~= part_a.subrange(0, length - 1));
        assert(b.subrange(from_b, from_b + length - 1) =~= part_b.subrange(0, length - 1));
        lemma_number_value_same(a, from_a, b, from_b, length - 1);
        assert(a[from_a + length - 1] == part_a[length - 1]);
        assert(b[from_b + length - 1] == part_b[length - 1]);
    }
}

/// From where digits start to where they end, every character is a digit,
/// and after them the text ends or a character follows that is no digit.
pub proof fn lemma_digits_run(s: Seq<char>, from: int)
    requires
        0 <= from <= s.len(),
    ensures
        from <= digits_end(s, from) <= s.len(),
        forall|i: int| from <= i < digits_end(s, from) ==> is_digit(#[trigger] s[i]),
        digits_end(s, from) == s.len() || !is_digit(s[digits_end(s, from)]),
    decreases s.len() - from,
{
    if from < s.len() && is_digit(s[from]) {
        lemma_digits_run(s, from + 1);
    }
}

/// An identifier ends where the text ends or a character follows that is no
/// part of a name.
pub proof fn lemma_name_end(s: Seq<char>, from: int)
    requires
        0 <= from <= s.len(),
    ensures
        from <= name_end(s, from) <= s.len(),
        name_end(s, from) == s.len() || !is_name_part(s[name_end(s, from)]),
    decreases s.len() - from,
{
    if from < s.len() && is_name_part(s[from]) {
        lemma_name_end(s, from + 1);
    }
}

/// The search for a quote ends at a quote or at the end of the text.
pub proof fn lemma_quote_found(s: Seq<char>, from: int)
    requires
        0 <= from <= s.len(),
    ensures
        from <= quote_at(s, from) <= s.len(),
        quote_at(s, from) == s.len() || s[quote_at(s, from)] == '"',
    decreases s.len() - from,
{
    if from < s.len() && s[from] != '"' {
        lemma_quote_found(s, from + 1);
    }
}

/// A token takes at least one character, and none beyond the last.
pub proof fn lemma_token_advances(s: Seq<char>, at: int)
    requires
        0 <= at < s.len(),
    ensures
        token_at(s, at) matches Ok((_, next)) ==> at < next <= s.len(),
{
    lemma_digits_run(s, at);
    lemma_name_end(s, at);
    lemma_quote_found(s, at + 1);
    let point = digits_end(s, at);
    if point + 1 < s.len() {
        lemma_digits_run(s, point + 1);
    }
}

/// The characters of a text.
pub(crate) fn characters(text: &str) -> (chars: Vec<char>)
    ensures
        chars@ == text@,
{
    let mut chars: Vec<char> = Vec::new();
    for c in iter: text.chars()
        invariant
            chars@ == iter.seq().take(iter.index() as int),
            iter.seq() == text@,
    {
        chars.push(c);
    }
    chars
}

fn digit(c: char) -> (b: bool)
    ensures
        b == is_digit(c),
{
    '0' <= c && c <= '9'
}

fn name_start(c: char) -> (b: bool)
    ensures
        b == is_name_start(c),
{
    ('a' <= c && c <= 'z') || ('A' <= c && c <= 'Z') || c == '_'
}

pub(crate) fn scan_digits(chars: &Vec<char>, from: usize) -> (end: usize)
    requires
        from <= chars.len(),
    ensures
        end == digits_end(chars@, from as int),
        from <= end <= chars.len(),
        from < chars.len() && is_digit(chars@[from as int]) ==> from < end,
        forall|i: int| from <= i < end ==> is_digit(#[trigger] chars@[i]),
{
    let mut end = from;
    while end < chars.len() && digit(chars[end])
        invariant
            from <= end <= chars.len(),
            digits_end(chars@, from as int) == digits_end(chars@, end as int),
            forall|i: int| from <= i < end ==> is_digit(#[trigger] chars@[i]),
        decreases chars.len() - end,
    {
        end = end + 1;
    }
    end
}

fn scan_name(chars: &Vec<char>, from: usize) -> (end: usize)
    requires
        from <= chars.len(),
    ensures
        end == name_end(chars@, from as int),
        from <= end <= chars.len(),
        from < chars.len() && is_name_part(chars@[from as int]) ==> from < end,
{
    let mut end = from;
    while end < chars.len() && (name_start(chars[end]) || digit(chars[end]))
        invariant
            from <= end <= chars.len(),
            name_end(chars@, from as int) == name_end(chars@, end as int),
        decreases chars.len() - end,
    {
        end = end + 1;
    }
    end
}

fn scan_quote(chars: &Vec<char>, from: usize) -> (end: usize)
    requires
        from <= chars.len(),
    ensures
        end == quote_at(chars@, from as int),
        from <= end <= chars.len(),
{
    let mut end = from;
    while end < chars.len() && chars[end] != '"'
        invariant
            from <= end <= chars.len(),
            quote_at(chars@, from as int) == quote_at(chars@, end as int),
        decreases chars.len() - end,
    {
        end = end + 1;
    }
    end
}

/// A number does not shrink when digits are added to it.
proof fn lemma_number_grows(s: Seq<char>, from: int, middle: int, to: int)
    requires
        from <= middle <= to,
    ensures
        number_value(s, from, middle) <= number_value(s, from, to),
    decreases to - middle,
{
    if middle < to {
        lemma_number_grows(s, from, middle, to - 1);
    }
}

fn read_number(chars: &Vec<char>, from: usize, to: usize) -> (value: Option<i64>)
    requires
        from <= to <= chars.len(),
        forall|i: int| from <= i < to ==> is_digit(#[trigger] chars@[i]),
    ensures
        match value {
            Some(n) => n == number_value(chars@, from as int, to as int),
            None => number_value(chars@, from as int, to as int) > i64::MAX,
        },
{
    let mut value: i64 = 0;
    let mut at = from;
    while at < to
        invariant
            from <= at <= to <= chars.len(),
            forall|i: int| from <= i < to ==> is_digit(#[trigger] chars@[i]),
            value == number_value(chars@, from as int, at as int),
        decreases to - at,
    {
        let c = chars[at];
        let d: i64 = (c as u32 - '0' as u32) as i64;
        proof {
            lemma_number_grows(chars@, from as int, at as int + 1, to as int);
        }
        if value > (i64::MAX - d) / 10 {
            return None;
        }
        value = value * 10 + d;
        at = at + 1;
    }
    Some(value)
}

pub(crate) fn piece(text: &str, from: usize, to: usize) -> (s: String)
    requires
        from <= to <= text@.len(),
    ensures
        s@ == text@.subrange(from as int, to as int),
{
    String::from_str(text.substring_char(from, to))
}

/// Reads the token that starts at `at`, where no white space stands.
fn read_token(text: &str, chars: &Vec<char>, at: usize) -> (r: Result<(Token, usize), ParseError>)
    requires
        chars@ == text@,
        at < chars.len(),
    ensures
        match r {
            Ok((token, next)) => token_at(text@, at as int) == Ok::<(Lexeme, int), ParseError>(
                (token@, next as int),
            ) && at < next <= chars.len(),
            Err(e) => token_at(text@, at as int) == Err::<(Lexeme, int), ParseError>(e),
        },
{
    let c = chars[at];
    if digit(c) {
        let end = scan_digits(chars, at);
        if end < chars.len() - 1 && chars[end] == '.' && digit(chars[end + 1]) {
            let stop = scan_digits(chars, end + 1);
            Ok((Token::Decimal(piece(text, at, stop)), stop))
        } else {
            match read_number(chars, at, end) {
                Some(n) => Ok((Token::Number(n), end)),
                None => Err(ParseError::NumberTooLarge),
            }
        }
    } else if name_start(c) {
        let end = scan_name(chars, at);
        Ok((Token::Name(piece(text, at, end)), end))
    } else if c == '"' {
        let close = scan_quote(chars, at + 1);
        if close >= chars.len() {
            Err(ParseError::UnterminatedText)
        } else {
            Ok((Token::Text(piece(text, at + 1, close)), close + 1))
        }
    } else if c == '+' {
        Ok((Token::Plus, at + 1))
    } else if c == '-' {
        Ok((Token::Minus, at + 1))
    } else if c == '*' {
        Ok((Token::Star, at + 1))
    } else if c == '/' {
        Ok((Token::Slash, at + 1))
    } else if c == '(' {
        Ok((Token::Open, at + 1))
    } else if c == ')' {
        Ok((Token::Close, at + 1))
    } else {
        Err(ParseError::UnexpectedCharacter)
    }
}

/// Splits a text into its tokens.
pub fn tokenize(text: &str) -> (r: Result<Vec<Token>, ParseError>)
    ensures
        match r {
            Ok(found) => tokens(text@) == Ok::<Seq<Lexeme>, ParseError>(lexemes(found@)),
            Err(e) => tokens(text@) == Err::<Seq<Lexeme>, ParseError>(e),
        },
{
    let chars = characters(text);
    let mut found: Vec<Token> = Vec::new();
    let mut at: usize = 0;
    while at < chars.len()
        invariant
            chars@ == text@,
            at <= chars.len(),
            tokens(text@) == followed_by(lexemes(found@), tokens_from(text@, at as int)),
        decreases chars.len() - at,
    {
        let c = chars[at];
        if c == ' ' || c == '\t' || c == '\n' || c == '\r' {
            at = at + 1;
        } else {
            match read_token(text, &chars, at) {
                Ok((token, next)) => {
                    proof {
                        let before = lexemes(found@);
                        let after = lexemes(found@.push(token));
                        match tokens_from(text@, next as int) {
                            Ok(more) => {
                                assert(before + (seq![token@] + more) =~= after + more);
                            },
                            Err(_) => {},
                        }
                    }
                    found.push(token);
                    at = next;
                },
                Err(e) => {
                    return Err(e);
                },
            }
        }
    }
    Ok(found)
}

} // verus!
