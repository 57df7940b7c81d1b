//! The expression tree and its mathematical model.
//!
//! Every tree has a view in which text is a sequence of characters; the
//! contracts of the parser, the evaluator and the renderer are stated over
//! that view.

use vstd::prelude::*;

verus! {

/// The functions of one argument that the language knows.
#[derive(Debug, Clone, Copy, PartialEq, Eq, Structural)]
pub enum Function {
    SquareRoot,
    PowerOf2,
}

/// The four infix operators, all left-associative.
#[derive(Debug, Clone, Copy, PartialEq, Eq, Structural)]
pub enum InfixOp {
    Add,
    Subtract,
    Multiply,
    Divide,
}

/// A decimal number, held as the recipe that yields it.
///
/// The engine decides kinds, legality, integer results and errors; none of
/// these depends on the value of a decimal, so the IEEE-754 arithmetic itself
/// is left to whoever reads the result. A recipe is read in double precision:
/// `Literal` is the double nearest to its decimal text, `Whole` the double
/// nearest to its integer, and each other node one rounded operation on its
/// operands. A literal whose text writes no decimal number names no double;
/// `is_numeric` tells whether a recipe holds one.
#[derive(Debug, PartialEq)]
pub enum Decimal {
    Literal(String),
    Whole(i64),
    Negate(Box<Decimal>),
    SquareRoot(Box<Decimal>),
    Square(Box<Decimal>),
    Combine(InfixOp, Box<Decimal>, Box<Decimal>),
}

/// The model of a [`Decimal`].
pub enum DecimalView {
    Literal(Seq<char>),
    Whole(i64),
    Negate(Box<DecimalView>),
    SquareRoot(Box<DecimalView>),
    Square(Box<DecimalView>),
    Combine(InfixOp, Box<DecimalView>, Box<DecimalView>),
}

/// A node of the expression tree. `Number`, `Float` and `Text` are the
/// literals: every evaluation ends in one of them.
#[derive(Debug, PartialEq)]
pub enum Expression {
    BinOp(BinOp),
    Number(i64),
    Float(Decimal),
    Text(String),
    Negate(Box<Expression>),
    Constant(String),
    Parenthesis(Box<Expression>),
    Call(Function, Box<Expression>),
}

/// An infix operator applied to two operands.
#[derive(Debug, PartialEq)]
pub struct BinOp {
    pub op: InfixOp,
    pub left: Box<Expression>,
    pub right: Box<Expression>,
}

/// The model of an [`Expression`].
pub enum Term {
    BinOp(InfixOp, Box<Term>, Box<Term>),
    Number(i64),
    Float(DecimalView),
    Text(Seq<char>),
    Negate(Box<Term>),
    Constant(Seq<char>),
    Parenthesis(Box<Term>),
    Call(Function, Box<Term>),
}

impl Decimal {
    /// The recipe with its texts as character sequences.
    pub open spec fn model(&self) -> DecimalView
        decreases self,
    {
        match self {
            Decimal::Literal(s) => DecimalView::Literal(s@),
            Decimal::Whole(n) => DecimalView::Whole(*n),
            Decimal::Negate(d) => DecimalView::Negate(Box::new(d.model())),
            Decimal::SquareRoot(d) => DecimalView::SquareRoot(Box::new(d.model())),
            Decimal::Square(d) => DecimalView::Square(Box::new(d.model())),
            Decimal::Combine(op, l, r) => DecimalView::Combine(
                *op,
                Box::new(l.model()),
                Box::new(r.model()),
            ),
        }
    }
}

impl View for Decimal {
    type V = DecimalView;

    open spec fn view(&self) -> DecimalView {
        self.model()
    }
}

impl Expression {
    /// The tree with its texts as character sequences.
    pub open spec fn model(&self) -> Term
        decreases self,
    {
        match self {
            Expression::BinOp(b) => Term::BinOp(
                b.op,
                Box::new(b.left.model()),
                Box::new(b.right.model()),
            ),
            Expression::Number(n) => Term::Number(*n),
            Expression::Float(d) => Term::Float(d@),
            Expression::Text(s) => Term::Text(s@),
            Expression::Negate(e) => Term::Negate(Box::new(e.model())),
            Expression::Constant(s) => Term::Constant(s@),
            Expression::Parenthesis(e) => Term::Parenthesis(Box::new(e.model())),
            Expression::Call(f, e) => Term::Call(*f, Box::new(e.model())),
        }
    }
}

impl View for Expression {
    type V = Term;

    open spec fn view(&self) -> Term {
        self.model()
    }
}

impl Decimal {
    fn duplicate(&self) -> (copy: Decimal)
        ensures
            copy@ == self@,
        decreases self,
    {
        match self {
            Decimal::Literal(s) => Decimal::Literal(s.clone()),
            Decimal::Whole(n) => Decimal::Whole(*n),
            Decimal::Negate(d) => Decimal::Negate(Box::new(d.duplicate())),
            Decimal::SquareRoot(d) => Decimal::SquareRoot(Box::new(d.duplicate())),
            Decimal::Square(d) => Decimal::Square(Box::new(d.duplicate())),
            Decimal::Combine(op, l, r) => Decimal::Combine(
                *op,
                Box::new(l.duplicate()),
                Box::new(r.duplicate()),
            ),
        }
    }
}

impl Clone for Decimal {
    /// A deep copy: the clone has the same model.
    fn clone(&self) -> (copy: Decimal)
        ensures
            copy@ == self@,
    {
        self.duplicate()
    }
}

impl Expression {
    fn duplicate(&self) -> (copy: Expression)
        ensures
            copy@ == self@,
        decreases self,
    {
        match self {
            Expression::BinOp(b) => Expression::BinOp(
                BinOp {
                    op: b.op,
                    left: Box::new(b.left.duplicate()),
                    right: Box::new(b.right.duplicate()),
                },
            ),
            Expression::Number(n) => Expression::Number(*n),
            Expression::Float(d) => Expression::Float(d.duplicate()),
            Expression::Text(s) => Expression::Text(s.clone()),
            Expression::Negate(e) => Expression::Negate(Box::new(e.duplicate())),
            Expression::Constant(s) => Expression::Constant(s.clone()),
            Expression::Parenthesis(e) => Expression::Parenthesis(Box::new(e.duplicate())),
            Expression::Call(f, e) => Expression::Call(*f, Box::new(e.duplicate())),
        }
    }
}

impl Clone for Expression {
    /// A deep copy: the clone has the same model.
    fn clone(&self) -> (copy: Expression)
        ensures
            copy@ == self@,
    {
        self.duplicate()
    }
}

impl Clone for BinOp {
    /// A deep copy: the operator and the models of both operands are kept.
    fn clone(&self) -> (copy: BinOp)
        ensures
            copy.op == self.op,
            copy.left@ == self.left@,
            copy.right@ == self.right@,
    {
        BinOp {
            op: self.op,
            left: Box::new(self.left.duplicate()),
            right: Box::new(self.right.duplicate()),
        }
    }
}

} // verus!
