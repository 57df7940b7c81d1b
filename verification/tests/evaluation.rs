use field_expr::evaluator::{
    apply, combine, kind, negate, repeat, EvalError, Kind, UnaryOp, MAX_REPEATED_LENGTH,
};
use field_expr::expression::{BinOp, Decimal, Expression, Function, InfixOp};
use field_expr::parser::parse_expression;
use indexmap::IndexMap;

/// What a recipe yields in double precision.
fn value(d: &Decimal) -> f64 {
    match d {
        Decimal::Literal(text) => text.parse().unwrap(),
        Decimal::Whole(n) => *n as f64,
        Decimal::Negate(x) => -value(x),
        Decimal::SquareRoot(x) => value(x).sqrt(),
        Decimal::Square(x) => value(x) * value(x),
        Decimal::Combine(op, l, r) => match op {
            InfixOp::Add => value(l) + value(r),
            InfixOp::Subtract => value(l) - value(r),
            InfixOp::Multiply => value(l) * value(r),
            InfixOp::Divide => value(l) / value(r),
        },
    }
}

fn float(e: Expression) -> f64 {
    match e {
        Expression::Float(d) => value(&d),
        other => panic!("not a decimal: {:?}", other),
    }
}

fn empty() -> IndexMap<String, Expression> {
    IndexMap::new()
}

fn run(text: &str) -> Result<Expression, EvalError> {
    parse_expression(text).unwrap().eval(&empty())
}

fn literal(text: &str) -> Decimal {
    Decimal::Literal(text.to_string())
}

fn text(s: &str) -> Expression {
    Expression::Text(s.to_string())
}

#[test]
fn round_trip_of_a_literal() {
    let value = run("42").unwrap();
    assert_eq!(value, Expression::Number(42));
    assert_eq!(value.to_string(), "42");
    let value = run("\"forty-two\"").unwrap();
    assert_eq!(value, text("forty-two"));
    assert_eq!(value.to_string(), "forty-two");
    let value = run("4.25").unwrap();
    assert_eq!(value, Expression::Float(literal("4.25")));
    assert_eq!(value.to_string(), "4.25");
}

#[test]
fn round_trip_of_rendered_integers() {
    for n in [0i64, 7, 10, 99, 100, 1234567890, i64::MAX, -1, -10, -987, i64::MIN + 1] {
        let rendered = Expression::Number(n).to_string();
        assert_eq!(rendered, format!("{}", n));
        assert_eq!(run(&rendered), Ok(Expression::Number(n)));
    }
    let least = Expression::Number(i64::MIN).to_string();
    assert_eq!(least, "-9223372036854775808");
    assert!(parse_expression(&least).is_err());
}

#[test]
fn precedence() {
    assert_eq!(run("2 + 3 * 4"), Ok(Expression::Number(14)));
    assert_ne!(run("2 + 3 * 4"), Ok(Expression::Number(20)));
    assert_eq!(run("(2 + 3) * 4"), Ok(Expression::Number(20)));
}

#[test]
fn left_associativity() {
    assert_eq!(run("10 - 3 - 2"), Ok(Expression::Number(5)));
    assert_eq!(run("100 / 10 / 5"), Ok(Expression::Number(2)));
}

#[test]
fn unary_binds_tighter_than_infix() {
    assert_eq!(run("-2 + 3"), Ok(Expression::Number(1)));
    assert_eq!(run("-2 * 3"), Ok(Expression::Number(-6)));
}

#[test]
fn double_negation() {
    assert_eq!(run("--5"), Ok(Expression::Number(5)));
}

#[test]
fn function_composition() {
    let result = run("sqrt(pow2(3))").unwrap();
    assert_eq!(
        result,
        Expression::Float(Decimal::SquareRoot(Box::new(Decimal::Whole(9))))
    );
    assert_eq!(float(result), 3.0);
}

#[test]
fn constant_resolution() {
    let mut bindings = empty();
    bindings.insert("distance".to_string(), Expression::Float(literal("16")));
    let result = parse_expression("sqrt(distance)").unwrap().eval(&bindings).unwrap();
    assert_eq!(result, Expression::Float(Decimal::SquareRoot(Box::new(literal("16")))));
    assert_eq!(float(result), 4.0);
}

#[test]
fn text_repeat() {
    assert_eq!(run("\"ab\" * 3"), Ok(text("ababab")));
    assert_eq!(run("3 * \"ab\""), Ok(text("ababab")));
    assert_eq!(run("\"ab\" * 0"), Ok(text("")));
    assert_eq!(run("\"\" * 9223372036854775807"), Ok(text("")));
    assert_eq!(run("\"ż\" * 2"), Ok(text("żż")));
}

#[test]
fn text_concat() {
    assert_eq!(run("\"foo\" + \"bar\""), Ok(text("foobar")));
    assert_eq!(run("\"\" + \"\""), Ok(text("")));
}

#[test]
fn unsupported_pairing_fails() {
    assert_eq!(
        run("\"x\" - \"y\""),
        Err(EvalError::UnsupportedOperation(InfixOp::Subtract, Kind::Text, Kind::Text))
    );
    assert_eq!(
        run("\"x\" + 1"),
        Err(EvalError::UnsupportedOperation(InfixOp::Add, Kind::Text, Kind::Number))
    );
    assert_eq!(
        run("1 / \"x\""),
        Err(EvalError::UnsupportedOperation(InfixOp::Divide, Kind::Number, Kind::Text))
    );
    assert_eq!(
        run("\"x\" * 1.5"),
        Err(EvalError::UnsupportedOperation(InfixOp::Multiply, Kind::Text, Kind::Float))
    );
    assert_eq!(
        run("1.5 + \"x\""),
        Err(EvalError::UnsupportedOperation(InfixOp::Add, Kind::Float, Kind::Text))
    );
}

#[test]
fn unknown_constant_fails() {
    assert_eq!(
        run("missingField"),
        Err(EvalError::UnknownConstant("missingField".to_string()))
    );
}

#[test]
fn determinism() {
    let mut bindings = empty();
    bindings.insert("a".to_string(), Expression::Number(7));
    bindings.insert("b".to_string(), Expression::Float(literal("0.5")));
    let tree = parse_expression("sqrt(a * a + b) / (a - 7) + \"x\" * a").unwrap();
    assert_eq!(tree.eval(&bindings), tree.eval(&bindings));
    let tree = parse_expression("pow2(b) * -a - sqrt(a)").unwrap();
    let first = tree.eval(&bindings);
    assert!(first.is_ok());
    assert_eq!(first, tree.eval(&bindings));
}

#[test]
fn integer_arithmetic() {
    assert_eq!(run("7 / 2"), Ok(Expression::Number(3)));
    assert_eq!(run("-7 / 2"), Ok(Expression::Number(-3)));
    assert_eq!(run("7 / -2"), Ok(Expression::Number(-3)));
    assert_eq!(run("-7 / -2"), Ok(Expression::Number(3)));
    assert_eq!(run("0 / 5"), Ok(Expression::Number(0)));
    assert_eq!(run("pow2(-12)"), Ok(Expression::Number(144)));
    assert_eq!(run("9223372036854775806 + 1"), Ok(Expression::Number(i64::MAX)));
    assert_eq!(run("-9223372036854775807 - 1"), Ok(Expression::Number(i64::MIN)));
}

#[test]
fn division_by_zero() {
    assert_eq!(run("1 / 0"), Err(EvalError::DivisionByZero));
    assert_eq!(run("0 / 0"), Err(EvalError::DivisionByZero));
    assert_eq!(run("1 / (2 - 2)"), Err(EvalError::DivisionByZero));
}

#[test]
fn decimal_division_by_zero_is_no_error() {
    let result = run("1.5 / 0").unwrap();
    assert_eq!(float(result), f64::INFINITY);
    let result = run("0 / 0.0").unwrap();
    assert!(float(result).is_nan());
}

#[test]
fn overflow() {
    assert_eq!(run("9223372036854775807 + 1"), Err(EvalError::Overflow));
    assert_eq!(run("-9223372036854775807 - 2"), Err(EvalError::Overflow));
    assert_eq!(run("4611686018427387904 * 2"), Err(EvalError::Overflow));
    assert_eq!(run("pow2(3037000500)"), Err(EvalError::Overflow));
    assert_eq!(run("pow2(3037000499)"), Ok(Expression::Number(9223372030926249001)));
    assert_eq!(run("(-9223372036854775807 - 1) / -1"), Err(EvalError::Overflow));
    assert_eq!(run("-(-9223372036854775807 - 1)"), Err(EvalError::Overflow));
}

#[test]
fn invalid_operand() {
    assert_eq!(run("-\"x\""), Err(EvalError::InvalidOperand(UnaryOp::Negate, Kind::Text)));
    assert_eq!(
        run("sqrt(\"x\")"),
        Err(EvalError::InvalidOperand(UnaryOp::SquareRoot, Kind::Text))
    );
    assert_eq!(
        run("pow2(\"x\")"),
        Err(EvalError::InvalidOperand(UnaryOp::PowerOf2, Kind::Text))
    );
}

#[test]
fn repeat_bounds() {
    assert_eq!(run("\"ab\" * -1"), Err(EvalError::NegativeRepeat));
    assert_eq!(run("(0 - 3) * \"ab\""), Err(EvalError::NegativeRepeat));
    assert_eq!(run("\"\" * -1"), Err(EvalError::NegativeRepeat));
    assert_eq!(MAX_REPEATED_LENGTH, 1_048_576);
    assert_eq!(run("\"ab\" * 524289"), Err(EvalError::TextTooLong));
    assert_eq!(run("\"a\" * 9223372036854775807"), Err(EvalError::TextTooLong));
    match repeat("ab", 524288) {
        Ok(Expression::Text(s)) => {
            assert_eq!(s.len(), 1_048_576);
            assert!(s.starts_with("abab") && s.ends_with("abab"));
        }
        other => panic!("unexpected: {:?}", other.map(|_| ())),
    }
    assert_eq!(repeat("żó", 2), Ok(text("żóżó")));
}

#[test]
fn the_left_operand_fails_first() {
    assert_eq!(run("a + 1 / 0"), Err(EvalError::UnknownConstant("a".to_string())));
    assert_eq!(run("1 / 0 + a"), Err(EvalError::DivisionByZero));
    assert_eq!(run("sqrt(b) + a"), Err(EvalError::UnknownConstant("b".to_string())));
}

#[test]
fn mixed_arithmetic_promotes_the_integer() {
    let result = run("1 + 2.5").unwrap();
    assert_eq!(
        result,
        Expression::Float(Decimal::Combine(
            InfixOp::Add,
            Box::new(Decimal::Whole(1)),
            Box::new(literal("2.5")),
        ))
    );
    assert_eq!(float(result), 3.5);
    assert_eq!(float(run("2.5 - 1").unwrap()), 1.5);
    assert_eq!(float(run("2.5 * 2.0").unwrap()), 5.0);
    assert_eq!(float(run("5 / 2.0").unwrap()), 2.5);
    assert_eq!(float(run("-2.5").unwrap()), -2.5);
    assert_eq!(float(run("pow2(1.5)").unwrap()), 2.25);
    assert_eq!(float(run("sqrt(2.25)").unwrap()), 1.5);
    assert_eq!(float(run("sqrt(16)").unwrap()), 4.0);
    assert!(float(run("sqrt(-1)").unwrap()).is_nan());
    assert_eq!(float(run("(1 + 2.5) * 2 - sqrt(4) / 4").unwrap()), 6.5);
}

#[test]
fn parentheses_do_not_change_a_value() {
    assert_eq!(run("((7))"), Ok(Expression::Number(7)));
    assert_eq!(run("(\"a\")"), Ok(text("a")));
}

#[test]
fn the_pieces_of_the_evaluator() {
    assert_eq!(kind(&Expression::Number(1)), Kind::Number);
    assert_eq!(kind(&Expression::Float(Decimal::Whole(1))), Kind::Float);
    assert_eq!(kind(&text("")), Kind::Text);
    assert_eq!(kind(&Expression::Constant("a".to_string())), Kind::Unevaluated);
    assert_eq!(negate(Expression::Number(5)), Ok(Expression::Number(-5)));
    assert_eq!(
        negate(Expression::Float(Decimal::Whole(5))),
        Ok(Expression::Float(Decimal::Negate(Box::new(Decimal::Whole(5)))))
    );
    assert_eq!(apply(Function::PowerOf2, Expression::Number(5)), Ok(Expression::Number(25)));
    assert_eq!(
        apply(Function::PowerOf2, Expression::Float(literal("1.5"))),
        Ok(Expression::Float(Decimal::Square(Box::new(literal("1.5")))))
    );
    assert_eq!(
        combine(InfixOp::Subtract, Expression::Number(5), Expression::Number(7)),
        Ok(Expression::Number(-2))
    );
}

#[test]
fn a_table_that_holds_an_unevaluated_expression() {
    let mut bindings = empty();
    bindings.insert("a".to_string(), Expression::Constant("b".to_string()));
    let tree = parse_expression("a").unwrap();
    assert_eq!(tree.eval(&bindings), Ok(Expression::Constant("b".to_string())));
    let tree = parse_expression("-a").unwrap();
    assert_eq!(
        tree.eval(&bindings),
        Err(EvalError::InvalidOperand(UnaryOp::Negate, Kind::Unevaluated))
    );
    let tree = parse_expression("a + 1").unwrap();
    assert_eq!(
        tree.eval(&bindings),
        Err(EvalError::UnsupportedOperation(InfixOp::Add, Kind::Unevaluated, Kind::Number))
    );
}

#[test]
fn a_later_binding_replaces_an_earlier_one() {
    let mut bindings = empty();
    bindings.insert("a".to_string(), Expression::Number(1));
    bindings.insert("b".to_string(), Expression::Number(2));
    bindings.insert("a".to_string(), Expression::Number(3));
    assert_eq!(parse_expression("a * 10 + b").unwrap().eval(&bindings), Ok(Expression::Number(32)));
}

#[test]
fn rendering() {
    assert_eq!(InfixOp::Add.to_string(), "+");
    assert_eq!(InfixOp::Subtract.to_string(), "-");
    assert_eq!(InfixOp::Multiply.to_string(), "*");
    assert_eq!(InfixOp::Divide.to_string(), "/");
    assert_eq!(Function::SquareRoot.to_string(), "sqrt");
    assert_eq!(Function::PowerOf2.to_string(), "pow2");
    let tree = parse_expression("4 * (4 + 6) + -1 - sqrt(nice) / pow2(\"t\")").unwrap();
    assert_eq!(tree.to_string(), "4 * (4 + 6) + -1 - sqrt(nice) / pow2(t)");
    assert_eq!(
        run("(1 + 2.5) * -sqrt(pow2(0.5))").unwrap().to_string(),
        "((1 + 2.5) * -sqrt(pow2(0.5)))"
    );
    assert_eq!(Expression::Number(-120).to_string(), "-120");
    assert_eq!(Expression::Number(0).to_string(), "0");
    let product = Expression::BinOp(BinOp {
        op: InfixOp::Multiply,
        left: Box::new(Expression::Number(2)),
        right: Box::new(text("a b")),
    });
    assert_eq!(product.to_string(), "2 * a b");
}

#[test]
fn clones_are_equal() {
    let tree = parse_expression("sqrt(a) * (\"b\" + 2.5) - -3").unwrap();
    assert_eq!(tree.clone(), tree);
    let decimal = float_recipe();
    assert_eq!(decimal.clone(), decimal);
}

fn float_recipe() -> Decimal {
    Decimal::Combine(
        InfixOp::Divide,
        Box::new(Decimal::Square(Box::new(literal("1.5")))),
        Box::new(Decimal::Negate(Box::new(Decimal::Whole(3)))),
    )
}
