//! Evaluation: the reduction of an expression tree to a literal.
//!
//! [`evaluation`] is the definition; [`Expression::eval`] computes it.
//!
//! Integers are 64 bits wide: a result outside that range is the failure
//! `Overflow`, and so is no result at all. Integer division rounds toward
//! zero, and by zero it is the failure `DivisionByZero`. Decimals follow
//! IEEE-754: dividing one by zero is no failure but the infinity or the NaN
//! of that standard, for whoever reads the recipe to find. A text can be
//! repeated up to `MAX_REPEATED_LENGTH` characters.

use crate::expression::{Decimal, DecimalView, Expression, Function, InfixOp, Term};
use crate::table::{all_values, bindings, get_binding, lemma_found_is_held, lookup};
use indexmap::IndexMap;
use vstd::prelude::*;
use vstd::string::{StrSliceExecFns, StringExecFns};

verus! {

/// The longest text, in characters, that repeating a text may produce.
pub const MAX_REPEATED_LENGTH: usize = 1_048_576;

/// What an evaluated operand is.
#[derive(Debug, Clone, Copy, PartialEq, Eq, Structural)]
pub enum Kind {
    Number,
    Float,
    Text,
    /// Not a literal: only a binding table that holds unevaluated
    /// expressions can hand one out.
    Unevaluated,
}

/// The operations of one operand.
#[derive(Debug, Clone, Copy, PartialEq, Eq, Structural)]
pub enum UnaryOp {
    Negate,
    SquareRoot,
    PowerOf2,
}

/// Why an expression has no value.
#[derive(Debug, PartialEq)]
pub enum EvalError {
    /// A constant names a field that the binding table does not hold.
    UnknownConstant(String),
    /// A negation or a function was applied to an operand of this kind.
    InvalidOperand(UnaryOp, Kind),
    /// The operator is not defined for operands of these two kinds.
    UnsupportedOperation(InfixOp, Kind, Kind),
    /// An integer was divided by zero.
    DivisionByZero,
    /// An integer result does not fit in 64 bits.
    Overflow,
    /// A text was to be repeated a negative number of times.
    NegativeRepeat,
    /// Repeating a text would give more than `MAX_REPEATED_LENGTH` characters.
    TextTooLong,
}

/// The model of an [`EvalError`].
pub enum Failure {
    UnknownConstant(Seq<char>),
    InvalidOperand(UnaryOp, Kind),
    UnsupportedOperation(InfixOp, Kind, Kind),
    DivisionByZero,
    Overflow,
    NegativeRepeat,
    TextTooLong,
}

impl View for EvalError {
    type V = Failure;

    open spec fn view(&self) -> Failure {
        match self {
            EvalError::UnknownConstant(name) => Failure::UnknownConstant(name@),
            EvalError::InvalidOperand(op, kind) => Failure::InvalidOperand(*op, *kind),
            EvalError::UnsupportedOperation(op, left, right) => Failure::UnsupportedOperation(
                *op,
                *left,
                *right,
            ),
            EvalError::DivisionByZero => Failure::DivisionByZero,
            EvalError::Overflow => Failure::Overflow,
            EvalError::NegativeRepeat => Failure::NegativeRepeat,
            EvalError::TextTooLong => Failure::TextTooLong,
        }
    }
}

/// The model of what an evaluation returns.
pub open spec fn outcome(result: Result<Expression, EvalError>) -> Result<Term, Failure> {
    match result {
        Ok(value) => Ok(value@),
        Err(error) => Err(error@),
    }
}

/// Whether a term is a literal: a number, a decimal or a text.
pub open spec fn is_literal(term: Term) -> bool {
    term is Number || term is Float || term is Text
}

/// The kind of a term.
pub open spec fn kind_of(term: Term) -> Kind {
    match term {
        Term::Number(_) => Kind::Number,
        Term::Float(_) => Kind::Float,
        Term::Text(_) => Kind::Text,
        _ => Kind::Unevaluated,
    }
}

/// Whether an integer fits in 64 bits.
pub open spec fn fits(n: int) -> bool {
    i64::MIN <= n <= i64::MAX
}

/// The quotient rounded toward zero, for a divisor other than zero.
pub open spec fn truncated_quotient(a: int, b: int) -> int {
    if a >= 0 && b > 0 {
        a / b
    } else if a < 0 && b < 0 {
        (-a) / (-b)
    } else if a < 0 {
        -((-a) / b)
    } else {
        -(a / (-b))
    }
}

/// `count` copies of `text`, one after the other.
pub open spec fn repeated(text: Seq<char>, count: nat) -> Seq<char>
    decreases count,
{
    if count == 0 {
        Seq::empty()
    } else {
        repeated(text, (count - 1) as nat) + text
    }
}

/// An integer as a value, if it fits in 64 bits.
pub open spec fn integer_result(n: int) -> Result<Term, Failure> {
    if fits(n) {
        Ok(Term::Number(n as i64))
    } else {
        Err(Failure::Overflow)
    }
}

/// The negation of a value.
pub open spec fn negation(value: Term) -> Result<Term, Failure> {
    match value {
        Term::Number(n) => integer_result(-n),
        Term::Float(d) => Ok(Term::Float(DecimalView::Negate(Box::new(d)))),
        _ => Err(Failure::InvalidOperand(UnaryOp::Negate, kind_of(value))),
    }
}

/// A function applied to a value. The square root of an integer is a
/// decimal; the square of an integer is an integer.
pub open spec fn application(function: Function, value: Term) -> Result<Term, Failure> {
    match function {
        Function::SquareRoot => match value {
            Term::Number(n) => Ok(
                Term::Float(DecimalView::SquareRoot(Box::new(DecimalView::Whole(n)))),
            ),
            Term::Float(d) => Ok(Term::Float(DecimalView::SquareRoot(Box::new(d)))),
            _ => Err(Failure::InvalidOperand(UnaryOp::SquareRoot, kind_of(value))),
        },
        Function::PowerOf2 => match value {
            Term::Number(n) => integer_result(n * n),
            Term::Float(d) => Ok(Term::Float(DecimalView::Square(Box::new(d)))),
            _ => Err(Failure::InvalidOperand(UnaryOp::PowerOf2, kind_of(value))),
        },
    }
}

/// An operator applied to two integers.
pub open spec fn integer_combination(op: InfixOp, a: i64, b: i64) -> Result<Term, Failure> {
    match op {
        InfixOp::Add => integer_result(a + b),
        InfixOp::Subtract => integer_result(a - b),
        InfixOp::Multiply => integer_result(a * b),
        InfixOp::Divide => if b == 0 {
            Err(Failure::DivisionByZero)
        } else {
            integer_result(truncated_quotient(a as int, b as int))
        },
    }
}

/// An operator applied to two decimals: the recipe of the operation. No
/// operand makes it fail.
pub open spec fn decimal_combination(op: InfixOp, a: DecimalView, b: DecimalView) -> Term {
    Term::Float(DecimalView::Combine(op, Box::new(a), Box::new(b)))
}

/// A text repeated `count` times.
pub open spec fn repetition(text: Seq<char>, count: i64) -> Result<Term, Failure> {
    if count < 0 {
        Err(Failure::NegativeRepeat)
    } else if text.len() * count > MAX_REPEATED_LENGTH {
        Err(Failure::TextTooLong)
    } else {
        Ok(Term::Text(repeated(text, count as nat)))
    }
}

/// An operator applied to two values, by the kinds of the values. Two
/// integers give an integer. A decimal with a decimal or an integer gives a
/// decimal, the integer promoted. Two texts can be added, which joins them.
/// A text and an integer, in either order, can be multiplied, which repeats
/// the text. Nothing else is defined.
pub open spec fn combination(op: InfixOp, left: Term, right: Term) -> Result<Term, Failure> {
    match (left, right) {
        (Term::Number(a), Term::Number(b)) => integer_combination(op, a, b),
        (Term::Float(a), Term::Float(b)) => Ok(decimal_combination(op, a, b)),
        (Term::Number(a), Term::Float(b)) => Ok(decimal_combination(op, DecimalView::Whole(a), b)),
        (Term::Float(a), Term::Number(b)) => Ok(decimal_combination(op, a, DecimalView::Whole(b))),
        (Term::Text(a), Term::Text(b)) if op == InfixOp::Add => Ok(Term::Text(a + b)),
        (Term::Text(a), Term::Number(b)) if op == InfixOp::Multiply => repetition(a, b),
        (Term::Number(a), Term::Text(b)) if op == InfixOp::Multiply => repetition(b, a),
        _ => Err(Failure::UnsupportedOperation(op, kind_of(left), kind_of(right))),
    }
}

/// The value of an expression under a binding table, or the reason why it
/// has none. The left operand of an operator is evaluated first, and the
/// first failure is the failure of the whole.
pub open spec fn evaluation(term: Term, pairs: Seq<(Seq<char>, Term)>) -> Result<Term, Failure>
    decreases term,
{
    match term {
        Term::Number(_) | Term::Float(_) | Term::Text(_) => Ok(term),
        Term::Constant(name) => match lookup(pairs, name) {
            Some(value) => Ok(value),
            None => Err(Failure::UnknownConstant(name)),
        },
        Term::Parenthesis(inner) => evaluation(*inner, pairs),
        Term::Negate(inner) => match evaluation(*inner, pairs) {
            Ok(value) => negation(value),
            Err(failure) => Err(failure),
        },
        Term::Call(function, argument) => match evaluation(*argument, pairs) {
            Ok(value) => application(function, value),
            Err(failure) => Err(failure),
        },
        Term::BinOp(op, left, right) => match evaluation(*left, pairs) {
            Ok(l) => match evaluation(*right, pairs) {
                Ok(r) => combination(op, l, r),
                Err(failure) => Err(failure),
            },
            Err(failure) => Err(failure),
        },
    }
}

/// Repeating the empty text gives the empty text.
proof fn lemma_repeated_empty(count: nat)
    ensures
        repeated(Seq::<char>::empty(), count) == Seq::<char>::empty(),
    decreases count,
{
    if count > 0 {
        lemma_repeated_empty((count - 1) as nat);
    }
}

/// The kind of a value.
pub fn kind(value: &Expression) -> (k: Kind)
    ensures
        k == kind_of(value@),
{
    match value {
        Expression::Number(_) => Kind::Number,
        Expression::Float(_) => Kind::Float,
        Expression::Text(_) => Kind::Text,
        _ => Kind::Unevaluated,
    }
}

fn integer(n: Option<i64>) -> (r: Result<Expression, EvalError>)
    ensures
        outcome(r) == match n {
            Some(v) => Ok::<Term, Failure>(Term::Number(v)),
            None => Err(Failure::Overflow),
        },
{
    match n {
        Some(v) => Ok(Expression::Number(v)),
        None => Err(EvalError::Overflow),
    }
}

/// Negates a value: an integer stays an integer, a decimal a decimal, and
/// nothing else can be negated.
pub fn negate(value: Expression) -> (r: Result<Expression, EvalError>)
    ensures
        outcome(r) == negation(value@),
{
    match value {
        Expression::Number(n) => integer(0i64.checked_sub(n)),
        Expression::Float(d) => Ok(Expression::Float(Decimal::Negate(Box::new(d)))),
        other => Err(EvalError::InvalidOperand(UnaryOp::Negate, kind(&other))),
    }
}

/// Applies a function to a value.
pub fn apply(function: Function, value: Expression) -> (r: Result<Expression, EvalError>)
    ensures
        outcome(r) == application(function, value@),
{
    match function {
        Function::SquareRoot => match value {
            Expression::Number(n) => {
                let whole = Decimal::Whole(n);
                assert(whole@ == DecimalView::Whole(n));
                Ok(Expression::Float(Decimal::SquareRoot(Box::new(whole))))
            },
            Expression::Float(d) => Ok(Expression::Float(Decimal::SquareRoot(Box::new(d)))),
            other => Err(EvalError::InvalidOperand(UnaryOp::SquareRoot, kind(&other))),
        },
        Function::PowerOf2 => match value {
            Expression::Number(n) => integer(n.checked_mul(n)),
            Expression::Float(d) => Ok(Expression::Float(Decimal::Square(Box::new(d)))),
            other => Err(EvalError::InvalidOperand(UnaryOp::PowerOf2, kind(&other))),
        },
    }
}

/// Repeats a text. A negative count is refused, and so is a result of more
/// than `MAX_REPEATED_LENGTH` characters.
pub fn repeat(text: &str, count: i64) -> (r: Result<Expression, EvalError>)
    ensures
        outcome(r) == repetition(text@, count),
{
    if count < 0 {
        return Err(EvalError::NegativeRepeat);
    }
    let length: usize = text.unicode_len();
    if length == 0 || count == 0 {
        proof {
            assert(text@.len() * count == 0) by (nonlinear_arith)
                requires
                    text@.len() == 0 || count == 0,
            ;
            if length == 0 {
                assert(text@ =~= Seq::<char>::empty());
                lemma_repeated_empty(count as nat);
            }
        }
        return Ok(Expression::Text(String::new()));
    }
    if count > MAX_REPEATED_LENGTH as i64 {
        assert(text@.len() * count >= count) by (nonlinear_arith)
            requires
                text@.len() >= 1,
                count >= 0,
        ;
        return Err(EvalError::TextTooLong);
    }
    let times: usize = count as usize;
    if length > MAX_REPEATED_LENGTH / times {
        assert(text@.len() * count > MAX_REPEATED_LENGTH) by (nonlinear_arith)
            requires
                text@.len() > MAX_REPEATED_LENGTH as int / count as int,
                count > 0,
        ;
        return Err(EvalError::TextTooLong);
    }
    assert(text@.len() * count <= MAX_REPEATED_LENGTH) by (nonlinear_arith)
        requires
            text@.len() <= MAX_REPEATED_LENGTH as int / count as int,
            count > 0,
    ;
    let mut result = String::new();
    let mut done: usize = 0;
    while done < times
        invariant
            done <= times,
            result@ == repeated(text@, done as nat),
        decreases times - done,
    {
        result.append(text);
        done = done + 1;
    }
    Ok(Expression::Text(result))
}

fn combine_integers(op: InfixOp, a: i64, b: i64) -> (r: Result<Expression, EvalError>)
    ensures
        outcome(r) == integer_combination(op, a, b),
{
    match op {
        InfixOp::Add => integer(a.checked_add(b)),
        InfixOp::Subtract => integer(a.checked_sub(b)),
        InfixOp::Multiply => integer(a.checked_mul(b)),
        InfixOp::Divide => if b == 0 {
            Err(EvalError::DivisionByZero)
        } else {
            integer(a.checked_div(b))
        },
    }
}

fn combine_decimals(op: InfixOp, a: Decimal, b: Decimal) -> (r: Expression)
    ensures
        r@ == decimal_combination(op, a@, b@),
{
    Expression::Float(Decimal::Combine(op, Box::new(a), Box::new(b)))
}

/// Applies an operator to two values. Two integers give an integer; a
/// decimal with a decimal or an integer gives a decimal; two texts can be
/// added; a text and an integer, in either order, can be multiplied.
pub fn combine(op: InfixOp, left: Expression, right: Expression) -> (r: Result<
    Expression,
    EvalError,
>)
    ensures
        outcome(r) == combination(op, left@, right@),
{
    match (left, right) {
        (Expression::Number(a), Expression::Number(b)) => combine_integers(op, a, b),
        (Expression::Float(a), Expression::Float(b)) => Ok(combine_decimals(op, a, b)),
        (Expression::Number(a), Expression::Float(b)) => Ok(
            combine_decimals(op, Decimal::Whole(a), b),
        ),
        (Expression::Float(a), Expression::Number(b)) => Ok(
            combine_decimals(op, a, Decimal::Whole(b)),
        ),
        (Expression::Text(a), Expression::Text(b)) => match op {
            InfixOp::Add => Ok(Expression::Text(a.concat(b.as_str()))),
            _ => Err(EvalError::UnsupportedOperation(op, Kind::Text, Kind::Text)),
        },
        (Expression::Text(a), Expression::Number(b)) => match op {
            InfixOp::Multiply => repeat(a.as_str(), b),
            _ => Err(EvalError::UnsupportedOperation(op, Kind::Text, Kind::Number)),
        },
        (Expression::Number(a), Expression::Text(b)) => match op {
            InfixOp::Multiply => repeat(b.as_str(), a),
            _ => Err(EvalError::UnsupportedOperation(op, Kind::Number, Kind::Text)),
        },
        (l, r) => Err(EvalError::UnsupportedOperation(op, kind(&l), kind(&r))),
    }
}

impl Expression {
    /// Evaluates the expression under a binding table.
    ///
    /// The result is the value that [`evaluation`] defines, or the failure
    /// that it defines: the table is only read, and nothing else is consulted.
    pub fn eval(&self, map: &IndexMap<String, Expression>) -> (r: Result<Expression, EvalError>)
        ensures
            outcome(r) == evaluation(self@, bindings(*map)),
        decreases self,
    {
        match self {
            Expression::Number(n) => Ok(Expression::Number(*n)),
            Expression::Float(d) => Ok(Expression::Float(d.clone())),
            Expression::Text(s) => Ok(Expression::Text(s.clone())),
            Expression::Constant(name) => match get_binding(map, name.as_str()) {
                Some(value) => Ok(value.clone()),
                None => Err(EvalError::UnknownConstant(name.clone())),
            },
            Expression::Parenthesis(inner) => inner.eval(map),
            Expression::Negate(inner) => match inner.eval(map) {
                Ok(value) => negate(value),
                Err(error) => Err(error),
            },
            Expression::Call(function, argument) => match argument.eval(map) {
                Ok(value) => apply(*function, value),
                Err(error) => Err(error),
            },
            Expression::BinOp(b) => match b.left.eval(map) {
                Ok(l) => match b.right.eval(map) {
                    Ok(r) => combine(b.op, l, r),
                    Err(error) => Err(error),
                },
                Err(error) => Err(error),
            },
        }
    }
}

/// Whether every value that the pairs hold is a literal.
pub open spec fn all_literals(pairs: Seq<(Seq<char>, Term)>) -> bool {
    all_values(pairs, |value: Term| is_literal(value))
}

/// A literal is its own value, whatever the table holds.
pub proof fn lemma_literal_is_its_value(term: Term, pairs: Seq<(Seq<char>, Term)>)
    requires
        is_literal(term),
    ensures
        evaluation(term, pairs) == Ok::<Term, Failure>(term),
{
}

/// Under a table of literals, the value of an expression is a literal.
pub proof fn lemma_value_is_literal(term: Term, pairs: Seq<(Seq<char>, Term)>)
    requires
        all_literals(pairs),
    ensures
        evaluation(term, pairs) matches Ok(value) ==> is_literal(value),
    decreases term,
{
    match term {
        Term::Number(_) | Term::Float(_) | Term::Text(_) => {},
        Term::Constant(name) => {
            lemma_found_is_held(pairs, name, |value: Term| is_literal(value));
        },
        Term::Parenthesis(inner) => {
            lemma_value_is_literal(*inner, pairs);
        },
        Term::Negate(inner) => {
            lemma_value_is_literal(*inner, pairs);
        },
        Term::Call(_, argument) => {
            lemma_value_is_literal(*argument, pairs);
        },
        Term::BinOp(_, left, right) => {
            lemma_value_is_literal(*left, pairs);
            lemma_value_is_literal(*right, pairs);
        },
    }
}

/// Parentheses do not change a value.
pub proof fn lemma_parenthesis_is_transparent(term: Term, pairs: Seq<(Seq<char>, Term)>)
    ensures
        evaluation(Term::Parenthesis(Box::new(term)), pairs) == evaluation(term, pairs),
{
}

/// Two evaluations of one tree under one table end alike: the result depends
/// on nothing but the tree and what the table holds.
pub proof fn lemma_evaluation_is_deterministic(
    tree: Expression,
    map: IndexMap<String, Expression>,
    first: Result<Expression, EvalError>,
    second: Result<Expression, EvalError>,
)
    requires
        outcome(first) == evaluation(tree@, bindings(map)),
        outcome(second) == evaluation(tree@, bindings(map)),
    ensures
        outcome(first) == outcome(second),
{
}

/// Multiplying a text by a count gives the same in either order.
pub proof fn lemma_repeat_commutes(text: Seq<char>, count: i64)
    ensures
        combination(InfixOp::Multiply, Term::Text(text), Term::Number(count)) == combination(
            InfixOp::Multiply,
            Term::Number(count),
            Term::Text(text),
        ),
{
}

/// The length of a repeated text.
pub proof fn lemma_repeated_length(text: Seq<char>, count: nat)
    ensures
        repeated(text, count).len() == text.len() * count,
    decreases count,
{
    if count > 0 {
        lemma_repeated_length(text, (count - 1) as nat);
        assert(text.len() * (count - 1) + text.len() == text.len() * count) by (nonlinear_arith);
    } else {
        assert(text.len() * 0 == 0) by (nonlinear_arith);
    }
}

} // verus!
