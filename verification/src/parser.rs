//! The grammar of the expression language, and the parser for it.
//!
//! ```text
//! sum     := product { ("+" | "-") product }
//! product := operand { ("*" | "/") operand }
//! operand := number | decimal | text | name
//!          | "sqrt" "(" sum ")" | "pow2" "(" sum ")"
//!          | "(" sum ")" | "-" operand
//! ```
//!
//! Both tiers of operators associate to the left, and a minus sign before an
//! operand binds tighter than either. The names `sqrt` and `pow2` are
//! reserved: they stand before an argument in parentheses and nowhere else,
//! and no other name stands before one. [`syntax`] is the definition;
//! [`parse_expression`] computes it.

use crate::expression::{BinOp, Decimal, DecimalView, Expression, Function, InfixOp, Term};
use crate::lexer::{lexemes, tokenize, tokens, Lexeme, ParseError, Token};
use crate::render::function_name;
use vstd::prelude::*;
use vstd::string::StringExecFns;

verus! {

/// An expression and the place of the token after it.
pub type Parsed = Result<(Term, int), ParseError>;

/// The function that a name stands for, if it is the name of a function.
pub open spec fn function_named(name: Seq<char>) -> Option<Function> {
    if name == function_name(Function::SquareRoot) {
        Some(Function::SquareRoot)
    } else if name == function_name(Function::PowerOf2) {
        Some(Function::PowerOf2)
    } else {
        None
    }
}

/// The operator of the lower tier that a token stands for.
pub open spec fn additive(token: Lexeme) -> Option<InfixOp> {
    match token {
        Lexeme::Plus => Some(InfixOp::Add),
        Lexeme::Minus => Some(InfixOp::Subtract),
        _ => None,
    }
}

/// The operator of the higher tier that a token stands for.
pub open spec fn multiplicative(token: Lexeme) -> Option<InfixOp> {
    match token {
        Lexeme::Star => Some(InfixOp::Multiply),
        Lexeme::Slash => Some(InfixOp::Divide),
        _ => None,
    }
}

/// Two operands under an operator.
pub open spec fn joined(op: InfixOp, left: Term, right: Term) -> Term {
    Term::BinOp(op, Box::new(left), Box::new(right))
}

/// A sum in parentheses, the opening one at `at`.
pub open spec fn enclosed(ts: Seq<Lexeme>, at: int) -> Parsed
    decreases ts.len() - at, 0nat,
{
    if at < 0 || at >= ts.len() {
        Err(ParseError::UnexpectedEnd)
    } else {
        match sum(ts, at + 1) {
            Ok((inner, next)) => if 0 <= next < ts.len() && ts[next] is Close {
                Ok((inner, next + 1))
            } else {
                Err(ParseError::UnbalancedParenthesis)
            },
            Err(e) => Err(e),
        }
    }
}

/// The operand that starts at `at`.
pub open spec fn operand(ts: Seq<Lexeme>, at: int) -> Parsed
    decreases ts.len() - at, 1nat,
{
    if at < 0 || at >= ts.len() {
        Err(ParseError::UnexpectedEnd)
    } else {
        match ts[at] {
            Lexeme::Number(n) => Ok((Term::Number(n), at + 1)),
            Lexeme::Decimal(d) => Ok((Term::Float(DecimalView::Literal(d)), at + 1)),
            Lexeme::Text(s) => Ok((Term::Text(s), at + 1)),
            Lexeme::Name(name) => if at + 1 < ts.len() && ts[at + 1] is Open {
                match function_named(name) {
                    Some(function) => match enclosed(ts, at + 1) {
                        Ok((argument, next)) => Ok(
                            (Term::Call(function, Box::new(argument)), next),
                        ),
                        Err(e) => Err(e),
                    },
                    None => Err(ParseError::UnknownFunction),
                }
            } else if function_named(name) is Some {
                Err(ParseError::MissingArgument)
            } else {
                Ok((Term::Constant(name), at + 1))
            },
            Lexeme::Open => match enclosed(ts, at) {
                Ok((inner, next)) => Ok((Term::Parenthesis(Box::new(inner)), next)),
                Err(e) => Err(e),
            },
            Lexeme::Minus => match operand(ts, at + 1) {
                Ok((inner, next)) => Ok((Term::Negate(Box::new(inner)), next)),
                Err(e) => Err(e),
            },
            _ => Err(ParseError::UnexpectedToken),
        }
    }
}

/// What follows the operand `left` in a product, from `at` on.
pub open spec fn product_tail(ts: Seq<Lexeme>, at: int, left: Term) -> Parsed
    decreases ts.len() - at, 0nat,
{
    if 0 <= at < ts.len() && multiplicative(ts[at]) is Some {
        match operand(ts, at + 1) {
            Ok((right, next)) => if at < next <= ts.len() {
                product_tail(ts, next, joined(multiplicative(ts[at])->0, left, right))
            } else {
                Err(ParseError::UnexpectedEnd)
            },
            Err(e) => Err(e),
        }
    } else {
        Ok((left, at))
    }
}

/// The product that starts at `at`.
pub open spec fn product(ts: Seq<Lexeme>, at: int) -> Parsed
    decreases ts.len() - at, 2nat,
{
    match operand(ts, at) {
        Ok((left, next)) => if at < next <= ts.len() {
            product_tail(ts, next, left)
        } else {
            Err(ParseError::UnexpectedEnd)
        },
        Err(e) => Err(e),
    }
}

/// What follows the product `left` in a sum, from `at` on.
pub open spec fn sum_tail(ts: Seq<Lexeme>, at: int, left: Term) -> Parsed
    decreases ts.len() - at, 0nat,
{
    if 0 <= at < ts.len() && additive(ts[at]) is Some {
        match product(ts, at + 1) {
            Ok((right, next)) => if at < next <= ts.len() {
                sum_tail(ts, next, joined(additive(ts[at])->0, left, right))
            } else {
                Err(ParseError::UnexpectedEnd)
            },
            Err(e) => Err(e),
        }
    } else {
        Ok((left, at))
    }
}

/// The sum that starts at `at`.
pub open spec fn sum(ts: Seq<Lexeme>, at: int) -> Parsed
    decreases ts.len() - at, 3nat,
{
    match product(ts, at) {
        Ok((left, next)) => if at < next <= ts.len() {
            sum_tail(ts, next, left)
        } else {
            Err(ParseError::UnexpectedEnd)
        },
        Err(e) => Err(e),
    }
}

/// The expression that the tokens write: one sum that takes them all.
pub open spec fn parse(ts: Seq<Lexeme>) -> Result<Term, ParseError> {
    if ts.len() == 0 {
        Err(ParseError::Empty)
    } else {
        match sum(ts, 0) {
            Ok((term, next)) => if next == ts.len() {
                Ok(term)
            } else if 0 <= next < ts.len() && ts[next] is Close {
                Err(ParseError::UnbalancedParenthesis)
            } else {
                Err(ParseError::TrailingInput)
            },
            Err(e) => Err(e),
        }
    }
}

/// The expression that a text writes, or the reason why it writes none.
pub open spec fn syntax(text: Seq<char>) -> Result<Term, ParseError> {
    match tokens(text) {
        Ok(ts) => parse(ts),
        Err(e) => Err(e),
    }
}

/// The model of what the parsing functions return.
pub open spec fn parsed(r: Result<(Expression, usize), ParseError>) -> Parsed {
    match r {
        Ok((e, next)) => Ok((e@, next as int)),
        Err(e) => Err(e),
    }
}

/// A sum in parentheses ends after the place where it starts.
proof fn lemma_enclosed_advances(ts: Seq<Lexeme>, at: int)
    ensures
        enclosed(ts, at) matches Ok((_, next)) ==> at < next <= ts.len(),
    decreases ts.len() - at, 0nat,
{
    if 0 <= at < ts.len() {
        lemma_sum_advances(ts, at + 1);
    }
}

/// An operand takes at least one token, and none beyond the last.
pub proof fn lemma_operand_advances(ts: Seq<Lexeme>, at: int)
    ensures
        operand(ts, at) matches Ok((_, next)) ==> at < next <= ts.len(),
    decreases ts.len() - at, 1nat,
{
    if 0 <= at < ts.len() {
        match ts[at] {
            Lexeme::Name(name) => {
                if at + 1 < ts.len() && ts[at + 1] is Open {
                    lemma_enclosed_advances(ts, at + 1);
                }
            },
            Lexeme::Open => {
                lemma_enclosed_advances(ts, at);
            },
            Lexeme::Minus => {
                lemma_operand_advances(ts, at + 1);
            },
            _ => {},
        }
    }
}

proof fn lemma_product_tail_advances(ts: Seq<Lexeme>, at: int, left: Term)
    requires
        at <= ts.len(),
    ensures
        product_tail(ts, at, left) matches Ok((_, next)) ==> at <= next <= ts.len(),
    decreases ts.len() - at, 0nat,
{
    if 0 <= at < ts.len() && multiplicative(ts[at]) is Some {
        lemma_operand_advances(ts, at + 1);
        match operand(ts, at + 1) {
            Ok((right, next)) => {
                lemma_product_tail_advances(
                    ts,
                    next,
                    joined(multiplicative(ts[at])->0, left, right),
                );
            },
            Err(_) => {},
        }
    }
}

/// A product takes at least one token, and none beyond the last.
pub proof fn lemma_product_advances(ts: Seq<Lexeme>, at: int)
    ensures
        product(ts, at) matches Ok((_, next)) ==> at < next <= ts.len(),
    decreases ts.len() - at, 2nat,
{
    lemma_operand_advances(ts, at);
    match operand(ts, at) {
        Ok((left, next)) => {
            lemma_product_tail_advances(ts, next, left);
        },
        Err(_) => {},
    }
}

proof fn lemma_sum_tail_advances(ts: Seq<Lexeme>, at: int, left: Term)
    requires
        at <= ts.len(),
    ensures
        sum_tail(ts, at, left) matches Ok((_, next)) ==> at <= next <= ts.len(),
    decreases ts.len() - at, 0nat,
{
    if 0 <= at < ts.len() && additive(ts[at]) is Some {
        lemma_product_advances(ts, at + 1);
        match product(ts, at + 1) {
            Ok((right, next)) => {
                lemma_sum_tail_advances(ts, next, joined(additive(ts[at])->0, left, right));
            },
            Err(_) => {},
        }
    }
}

/// A sum takes at least one token, and none beyond the last.
pub proof fn lemma_sum_advances(ts: Seq<Lexeme>, at: int)
    ensures
        sum(ts, at) matches Ok((_, next)) ==> at < next <= ts.len(),
    decreases ts.len() - at, 3nat,
{
    lemma_product_advances(ts, at);
    match product(ts, at) {
        Ok((left, next)) => {
            lemma_sum_tail_advances(ts, next, left);
        },
        Err(_) => {},
    }
}

fn function_of(name: &String) -> (function: Option<Function>)
    ensures
        function == function_named(name@),
{
    proof {
        reveal_strlit("sqrt");
        reveal_strlit("pow2");
        assert("sqrt"@ =~= seq!['s', 'q', 'r', 't']);
        assert("pow2"@ =~= seq!['p', 'o', 'w', '2']);
    }
    if *name == String::from_str("sqrt") {
        Some(Function::SquareRoot)
    } else if *name == String::from_str("pow2") {
        Some(Function::PowerOf2)
    } else {
        None
    }
}

fn additive_of(token: &Token) -> (op: Option<InfixOp>)
    ensures
        op == additive(token@),
{
    match token {
        Token::Plus => Some(InfixOp::Add),
        Token::Minus => Some(InfixOp::Subtract),
        _ => None,
    }
}

fn multiplicative_of(token: &Token) -> (op: Option<InfixOp>)
    ensures
        op == multiplicative(token@),
{
    match token {
        Token::Star => Some(InfixOp::Multiply),
        Token::Slash => Some(InfixOp::Divide),
        _ => None,
    }
}

fn join(op: InfixOp, left: Expression, right: Expression) -> (e: Expression)
    ensures
        e@ == joined(op, left@, right@),
{
    Expression::BinOp(BinOp { op, left: Box::new(left), right: Box::new(right) })
}

fn is_open(tokens: &Vec<Token>, at: usize) -> (b: bool)
    ensures
        b == (at < tokens.len() && lexemes(tokens@)[at as int] is Open),
{
    if at < tokens.len() {
        match &tokens[at] {
            Token::Open => true,
            _ => false,
        }
    } else {
        false
    }
}

fn is_close(tokens: &Vec<Token>, at: usize) -> (b: bool)
    ensures
        b == (at < tokens.len() && lexemes(tokens@)[at as int] is Close),
{
    if at < tokens.len() {
        match &tokens[at] {
            Token::Close => true,
            _ => false,
        }
    } else {
        false
    }
}

fn parse_enclosed(tokens: &Vec<Token>, at: usize) -> (r: Result<(Expression, usize), ParseError>)
    requires
        at < tokens.len(),
    ensures
        parsed(r) == enclosed(lexemes(tokens@), at as int),
        r matches Ok((_, next)) ==> at < next <= tokens.len(),
    decreases tokens.len() - at, 0nat,
{
    match parse_sum(tokens, at + 1) {
        Ok((inner, next)) => if is_close(tokens, next) {
            Ok((inner, next + 1))
        } else {
            Err(ParseError::UnbalancedParenthesis)
        },
        Err(e) => Err(e),
    }
}

fn parse_operand(tokens: &Vec<Token>, at: usize) -> (r: Result<(Expression, usize), ParseError>)
    requires
        at <= tokens.len(),
    ensures
        parsed(r) == operand(lexemes(tokens@), at as int),
        r matches Ok((_, next)) ==> at < next <= tokens.len(),
    decreases tokens.len() - at, 1nat,
{
    if at >= tokens.len() {
        return Err(ParseError::UnexpectedEnd);
    }
    match &tokens[at] {
        Token::Number(n) => Ok((Expression::Number(*n), at + 1)),
        Token::Decimal(d) => Ok((Expression::Float(Decimal::Literal(d.clone())), at + 1)),
        Token::Text(s) => Ok((Expression::Text(s.clone()), at + 1)),
        Token::Name(name) => if is_open(tokens, at + 1) {
            match function_of(name) {
                Some(function) => match parse_enclosed(tokens, at + 1) {
                    Ok((argument, next)) => Ok(
                        (Expression::Call(function, Box::new(argument)), next),
                    ),
                    Err(e) => Err(e),
                },
                None => Err(ParseError::UnknownFunction),
            }
        } else if function_of(name).is_some() {
            Err(ParseError::MissingArgument)
        } else {
            Ok((Expression::Constant(name.clone()), at + 1))
        },
        Token::Open => match parse_enclosed(tokens, at) {
            Ok((inner, next)) => Ok((Expression::Parenthesis(Box::new(inner)), next)),
            Err(e) => Err(e),
        },
        Token::Minus => match parse_operand(tokens, at + 1) {
            Ok((inner, next)) => Ok((Expression::Negate(Box::new(inner)), next)),
            Err(e) => Err(e),
        },
        _ => Err(ParseError::UnexpectedToken),
    }
}

fn parse_product(tokens: &Vec<Token>, at: usize) -> (r: Result<(Expression, usize), ParseError>)
    requires
        at <= tokens.len(),
    ensures
        parsed(r) == product(lexemes(tokens@), at as int),
        r matches Ok((_, next)) ==> at < next <= tokens.len(),
    decreases tokens.len() - at, 2nat,
{
    let (mut left, mut next) = match parse_operand(tokens, at) {
        Ok(found) => found,
        Err(e) => { return Err(e); },
    };
    while next < tokens.len() && multiplicative_of(&tokens[next]).is_some()
        invariant
            at < next <= tokens.len(),
            product(lexemes(tokens@), at as int) == product_tail(
                lexemes(tokens@),
                next as int,
                left@,
            ),
        decreases tokens.len() - next,
    {
        let op = multiplicative_of(&tokens[next]).unwrap();
        match parse_operand(tokens, next + 1) {
            Ok((right, after)) => {
                left = join(op, left, right);
                next = after;
            },
            Err(e) => { return Err(e); },
        }
    }
    Ok((left, next))
}

fn parse_sum(tokens: &Vec<Token>, at: usize) -> (r: Result<(Expression, usize), ParseError>)
    requires
        at <= tokens.len(),
    ensures
        parsed(r) == sum(lexemes(tokens@), at as int),
        r matches Ok((_, next)) ==> at < next <= tokens.len(),
    decreases tokens.len() - at, 3nat,
{
    let (mut left, mut next) = match parse_product(tokens, at) {
        Ok(found) => found,
        Err(e) => { return Err(e); },
    };
    while next < tokens.len() && additive_of(&tokens[next]).is_some()
        invariant
            at < next <= tokens.len(),
            sum(lexemes(tokens@), at as int) == sum_tail(lexemes(tokens@), next as int, left@),
        decreases tokens.len() - next,
    {
        let op = additive_of(&tokens[next]).unwrap();
        match parse_product(tokens, next + 1) {
            Ok((right, after)) => {
                left = join(op, left, right);
                next = after;
            },
            Err(e) => { return Err(e); },
        }
    }
    Ok((left, next))
}

/// Parses a sequence of tokens as one expression.
pub fn parse_tokens(tokens: &Vec<Token>) -> (r: Result<Expression, ParseError>)
    ensures
        match r {
            Ok(e) => parse(lexemes(tokens@)) == Ok::<Term, ParseError>(e@),
            Err(e) => parse(lexemes(tokens@)) == Err::<Term, ParseError>(e),
        },
{
    if tokens.len() == 0 {
        return Err(ParseError::Empty);
    }
    match parse_sum(tokens, 0) {
        Ok((e, next)) => if next == tokens.len() {
            Ok(e)
        } else if is_close(tokens, next) {
            Err(ParseError::UnbalancedParenthesis)
        } else {
            Err(ParseError::TrailingInput)
        },
        Err(e) => Err(e),
    }
}

/// Parses the text of an expression.
///
/// The result is the tree that [`syntax`] defines for the text, or the fault
/// that it defines: a text is never parsed in part.
pub fn parse_expression(expression: &str) -> (r: Result<Expression, ParseError>)
    ensures
        match r {
            Ok(e) => syntax(expression@) == Ok::<Term, ParseError>(e@),
            Err(e) => syntax(expression@) == Err::<Term, ParseError>(e),
        },
{
    match tokenize(expression) {
        Ok(tokens) => parse_tokens(&tokens),
        Err(e) => Err(e),
    }
}

} // verus!
