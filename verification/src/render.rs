//! Rendering: the text of an operator, of a number, of an expression.
//!
//! [`rendering`] is the definition; [`Expression::to_string`] computes it.
//! An integer is written in decimal digits, a text verbatim, and a decimal as
//! the recipe that it is.

use crate::expression::{Decimal, DecimalView, Expression, Function, InfixOp, Term};
use vstd::prelude::*;
use vstd::string::StringExecFns;

verus! {

/// The sign of an operator.
pub open spec fn symbol(op: InfixOp) -> Seq<char> {
    match op {
        InfixOp::Add => seq!['+'],
        InfixOp::Subtract => seq!['-'],
        InfixOp::Multiply => seq!['*'],
        InfixOp::Divide => seq!['/'],
    }
}

/// The name of a function.
pub open spec fn function_name(function: Function) -> Seq<char> {
    match function {
        Function::SquareRoot => seq!['s', 'q', 'r', 't'],
        Function::PowerOf2 => seq!['p', 'o', 'w', '2'],
    }
}

/// The character of a digit.
pub open spec fn digit_char(d: int) -> char {
    if d == 0 {
        '0'
    } else if d == 1 {
        '1'
    } else if d == 2 {
        '2'
    } else if d == 3 {
        '3'
    } else if d == 4 {
        '4'
    } else if d == 5 {
        '5'
    } else if d == 6 {
        '6'
    } else if d == 7 {
        '7'
    } else if d == 8 {
        '8'
    } else {
        '9'
    }
}

/// A natural number in decimal digits, without leading zeros.
pub open spec fn digits_of(n: nat) -> Seq<char>
    decreases n,
{
    if n < 10 {
        seq![digit_char(n as int)]
    } else {
        digits_of(n / 10).push(digit_char((n % 10) as int))
    }
}

/// An integer in decimal digits, with a minus sign if it is negative.
pub open spec fn integer_text(n: int) -> Seq<char> {
    if n < 0 {
        seq!['-'] + digits_of((-n) as nat)
    } else {
        digits_of(n as nat)
    }
}

/// `left`, the sign of `op` between two spaces, `right`.
pub open spec fn infix_text(op: InfixOp, left: Seq<char>, right: Seq<char>) -> Seq<char> {
    left + seq![' '] + symbol(op) + seq![' '] + right
}

/// `name`, then `inner` in parentheses.
pub open spec fn call_text(name: Seq<char>, inner: Seq<char>) -> Seq<char> {
    name + seq!['('] + inner + seq![')']
}

/// The text of a decimal: its literal, or the operations that yield it, each
/// combination of two operands in parentheses.
pub open spec fn decimal_text(d: DecimalView) -> Seq<char>
    decreases d,
{
    match d {
        DecimalView::Literal(s) => s,
        DecimalView::Whole(n) => integer_text(n as int),
        DecimalView::Negate(x) => seq!['-'] + decimal_text(*x),
        DecimalView::SquareRoot(x) => call_text(
            function_name(Function::SquareRoot),
            decimal_text(*x),
        ),
        DecimalView::Square(x) => call_text(function_name(Function::PowerOf2), decimal_text(*x)),
        DecimalView::Combine(op, l, r) => call_text(
            Seq::empty(),
            infix_text(op, decimal_text(*l), decimal_text(*r)),
        ),
    }
}

/// The text of an expression.
pub open spec fn rendering(term: Term) -> Seq<char>
    decreases term,
{
    match term {
        Term::Number(n) => integer_text(n as int),
        Term::Float(d) => decimal_text(d),
        Term::Text(s) => s,
        Term::Constant(s) => s,
        Term::Parenthesis(inner) => call_text(Seq::empty(), rendering(*inner)),
        Term::Call(function, argument) => call_text(function_name(function), rendering(*argument)),
        Term::Negate(inner) => seq!['-'] + rendering(*inner),
        Term::BinOp(op, left, right) => infix_text(op, rendering(*left), rendering(*right)),
    }
}

impl InfixOp {
    /// The sign of the operator: `+`, `-`, `*` or `/`.
    pub fn to_string(&self) -> (text: String)
        ensures
            text@ == symbol(*self),
    {
        proof {
            reveal_strlit("+");
            reveal_strlit("-");
            reveal_strlit("*");
            reveal_strlit("/");
        }
        match self {
            InfixOp::Add => String::from_str("+"),
            InfixOp::Subtract => String::from_str("-"),
            InfixOp::Multiply => String::from_str("*"),
            InfixOp::Divide => String::from_str("/"),
        }
    }
}

impl Function {
    /// The name of the function: `sqrt` or `pow2`.
    pub fn to_string(&self) -> (text: String)
        ensures
            text@ == function_name(*self),
    {
        proof {
            reveal_strlit("sqrt");
            reveal_strlit("pow2");
        }
        match self {
            Function::SquareRoot => String::from_str("sqrt"),
            Function::PowerOf2 => String::from_str("pow2"),
        }
    }
}

fn digit_text(d: u8) -> (text: &'static str)
    requires
        d < 10,
    ensures
        text@ == seq![digit_char(d as int)],
{
    proof {
        reveal_strlit("0");
        reveal_strlit("1");
        reveal_strlit("2");
        reveal_strlit("3");
        reveal_strlit("4");
        reveal_strlit("5");
        reveal_strlit("6");
        reveal_strlit("7");
        reveal_strlit("8");
        reveal_strlit("9");
    }
    if d == 0 {
        "0"
    } else if d == 1 {
        "1"
    } else if d == 2 {
        "2"
    } else if d == 3 {
        "3"
    } else if d == 4 {
        "4"
    } else if d == 5 {
        "5"
    } else if d == 6 {
        "6"
    } else if d == 7 {
        "7"
    } else if d == 8 {
        "8"
    } else {
        "9"
    }
}

fn natural_to_string(n: u64) -> (text: String)
    ensures
        text@ == digits_of(n as nat),
    decreases n,
{
    if n < 10 {
        String::from_str(digit_text(n as u8))
    } else {
        let mut text = natural_to_string(n / 10);
        text.append(digit_text((n % 10) as u8));
        text
    }
}

/// Writes an integer in decimal digits.
pub fn integer_to_string(n: i64) -> (text: String)
    ensures
        text@ == integer_text(n as int),
{
    if n < 0 {
        let magnitude: u64 = (-(n + 1)) as u64 + 1;
        let mut text = String::from_str("-");
        proof {
            reveal_strlit("-");
        }
        text.append(natural_to_string(magnitude).as_str());
        text
    } else {
        natural_to_string(n as u64)
    }
}

fn call_to_string(name: String, inner: &String) -> (text: String)
    ensures
        text@ == call_text(name@, inner@),
{
    proof {
        reveal_strlit("(");
        reveal_strlit(")");
    }
    let mut text = name;
    text.append("(");
    text.append(inner.as_str());
    text.append(")");
    text
}

fn infix_to_string(op: InfixOp, left: String, right: &String) -> (text: String)
    ensures
        text@ == infix_text(op, left@, right@),
{
    proof {
        reveal_strlit(" ");
    }
    let mut text = left;
    text.append(" ");
    text.append(op.to_string().as_str());
    text.append(" ");
    text.append(right.as_str());
    text
}

fn negative_to_string(inner: &String) -> (text: String)
    ensures
        text@ == seq!['-'] + inner@,
{
    proof {
        reveal_strlit("-");
    }
    let mut text = String::from_str("-");
    text.append(inner.as_str());
    text
}

impl Decimal {
    /// The text of the decimal: its literal, or the operations that yield it.
    pub fn to_string(&self) -> (text: String)
        ensures
            text@ == decimal_text(self@),
        decreases self,
    {
        match self {
            Decimal::Literal(s) => s.clone(),
            Decimal::Whole(n) => integer_to_string(*n),
            Decimal::Negate(x) => negative_to_string(&x.to_string()),
            Decimal::SquareRoot(x) => call_to_string(
                Function::SquareRoot.to_string(),
                &x.to_string(),
            ),
            Decimal::Square(x) => call_to_string(Function::PowerOf2.to_string(), &x.to_string()),
            Decimal::Combine(op, l, r) => call_to_string(
                String::new(),
                &infix_to_string(*op, l.to_string(), &r.to_string()),
            ),
        }
    }
}

impl Expression {
    /// The text of the expression: a number in decimal digits, a text and a
    /// name verbatim, and every other node as the source would write it.
    pub fn to_string(&self) -> (text: String)
        ensures
            text@ == rendering(self@),
        decreases self,
    {
        match self {
            Expression::Number(n) => integer_to_string(*n),
            Expression::Float(d) => d.to_string(),
            Expression::Text(s) => s.clone(),
            Expression::Constant(s) => s.clone(),
            Expression::Parenthesis(inner) => call_to_string(String::new(), &inner.to_string()),
            Expression::Call(function, argument) => call_to_string(
                function.to_string(),
                &argument.to_string(),
            ),
            Expression::Negate(inner) => negative_to_string(&inner.to_string()),
            Expression::BinOp(b) => infix_to_string(
                b.op,
                b.left.to_string(),
                &b.right.to_string(),
            ),
        }
    }
}

} // verus!
