use field_expr::expression::{BinOp, Decimal, Expression, Function, InfixOp};
use field_expr::lexer::{tokenize, ParseError, Token};
use field_expr::parser::{parse_expression, parse_tokens};

fn number(n: i64) -> Box<Expression> {
    Box::new(Expression::Number(n))
}

fn binary(op: InfixOp, left: Expression, right: Expression) -> Expression {
    Expression::BinOp(BinOp { op, left: Box::new(left), right: Box::new(right) })
}

#[test]
fn test_parse_expression() {
    let expression = "4 * (4 + 6) + -1 + -2 --2 -(-1) -(-4* 55) + sqrt(nice) + pow2(type)";
    let result = parse_expression(expression);
    assert!(result.is_ok());
    println!("{:?}", result.unwrap());
}

#[test]
fn tokens_of_a_mixed_text() {
    let tokens = tokenize(" sqrt(x_1)*\"a b\"- 2.50/\t7\n").unwrap();
    assert_eq!(
        tokens,
        vec![
            Token::Name("sqrt".to_string()),
            Token::Open,
            Token::Name("x_1".to_string()),
            Token::Close,
            Token::Star,
            Token::Text("a b".to_string()),
            Token::Minus,
            Token::Decimal("2.50".to_string()),
            Token::Slash,
            Token::Number(7),
        ]
    );
}

#[test]
fn tokens_of_white_space_alone() {
    assert_eq!(tokenize(" \t\r\n").unwrap(), vec![]);
    assert_eq!(tokenize("").unwrap(), vec![]);
}

#[test]
fn number_directly_before_a_name() {
    assert_eq!(
        tokenize("12abc").unwrap(),
        vec![Token::Number(12), Token::Name("abc".to_string())]
    );
}

#[test]
fn largest_integer_literal() {
    assert_eq!(
        parse_expression("9223372036854775807"),
        Ok(Expression::Number(i64::MAX))
    );
    assert_eq!(parse_expression("9223372036854775808"), Err(ParseError::NumberTooLarge));
    assert_eq!(
        parse_expression("99999999999999999999999999999999"),
        Err(ParseError::NumberTooLarge)
    );
    assert_eq!(parse_expression("000000000000000000000000012"), Ok(Expression::Number(12)));
}

#[test]
fn text_literal_keeps_what_stands_between_the_quotes() {
    assert_eq!(parse_expression("\"a + (b\""), Ok(Expression::Text("a + (b".to_string())));
    assert_eq!(parse_expression("\"\""), Ok(Expression::Text(String::new())));
    assert_eq!(parse_expression("\"żółw 1\""), Ok(Expression::Text("żółw 1".to_string())));
}

#[test]
fn decimal_literal_keeps_its_text() {
    assert_eq!(
        parse_expression("2.50"),
        Ok(Expression::Float(Decimal::Literal("2.50".to_string())))
    );
    assert_eq!(parse_expression("2."), Err(ParseError::UnexpectedCharacter));
    assert_eq!(parse_expression(".5"), Err(ParseError::UnexpectedCharacter));
    assert_eq!(parse_expression("1.2.3"), Err(ParseError::UnexpectedCharacter));
}

#[test]
fn precedence_of_the_two_tiers() {
    assert_eq!(
        parse_expression("2 + 3 * 4"),
        Ok(binary(
            InfixOp::Add,
            Expression::Number(2),
            binary(InfixOp::Multiply, Expression::Number(3), Expression::Number(4)),
        ))
    );
    assert_eq!(
        parse_expression("2 * 3 + 4"),
        Ok(binary(
            InfixOp::Add,
            binary(InfixOp::Multiply, Expression::Number(2), Expression::Number(3)),
            Expression::Number(4),
        ))
    );
}

#[test]
fn operators_associate_to_the_left() {
    assert_eq!(
        parse_expression("10 - 3 - 2"),
        Ok(binary(
            InfixOp::Subtract,
            binary(InfixOp::Subtract, Expression::Number(10), Expression::Number(3)),
            Expression::Number(2),
        ))
    );
    assert_eq!(
        parse_expression("8 / 4 * 2"),
        Ok(binary(
            InfixOp::Multiply,
            binary(InfixOp::Divide, Expression::Number(8), Expression::Number(4)),
            Expression::Number(2),
        ))
    );
}

#[test]
fn minus_sign_binds_tighter_than_an_operator() {
    assert_eq!(
        parse_expression("-2 * 3"),
        Ok(binary(
            InfixOp::Multiply,
            Expression::Negate(number(2)),
            Expression::Number(3),
        ))
    );
    assert_eq!(
        parse_expression("--5"),
        Ok(Expression::Negate(Box::new(Expression::Negate(number(5)))))
    );
    assert_eq!(
        parse_expression("1 --2"),
        Ok(binary(InfixOp::Subtract, Expression::Number(1), Expression::Negate(number(2))))
    );
}

#[test]
fn parentheses_and_calls() {
    assert_eq!(
        parse_expression("(1)"),
        Ok(Expression::Parenthesis(number(1)))
    );
    assert_eq!(
        parse_expression("sqrt(1+2)"),
        Ok(Expression::Call(
            Function::SquareRoot,
            Box::new(binary(InfixOp::Add, Expression::Number(1), Expression::Number(2))),
        ))
    );
    assert_eq!(
        parse_expression("pow2 ( distance )"),
        Ok(Expression::Call(
            Function::PowerOf2,
            Box::new(Expression::Constant("distance".to_string())),
        ))
    );
    assert_eq!(
        parse_expression("-sqrt(4)"),
        Ok(Expression::Negate(Box::new(Expression::Call(Function::SquareRoot, number(4)))))
    );
}

#[test]
fn names_become_constants() {
    assert_eq!(parse_expression("_id"), Ok(Expression::Constant("_id".to_string())));
    assert_eq!(parse_expression("sqrtx"), Ok(Expression::Constant("sqrtx".to_string())));
    assert_eq!(parse_expression("Pow2"), Ok(Expression::Constant("Pow2".to_string())));
}

#[test]
fn every_parse_error() {
    assert_eq!(parse_expression(""), Err(ParseError::Empty));
    assert_eq!(parse_expression("   "), Err(ParseError::Empty));
    assert_eq!(parse_expression("1 # 2"), Err(ParseError::UnexpectedCharacter));
    assert_eq!(parse_expression("\"abc"), Err(ParseError::UnterminatedText));
    assert_eq!(parse_expression("18446744073709551616"), Err(ParseError::NumberTooLarge));
    assert_eq!(parse_expression("1 +"), Err(ParseError::UnexpectedEnd));
    assert_eq!(parse_expression("-"), Err(ParseError::UnexpectedEnd));
    assert_eq!(parse_expression("(1 + "), Err(ParseError::UnexpectedEnd));
    assert_eq!(parse_expression("* 2"), Err(ParseError::UnexpectedToken));
    assert_eq!(parse_expression("1 + * 2"), Err(ParseError::UnexpectedToken));
    assert_eq!(parse_expression("()"), Err(ParseError::UnexpectedToken));
    assert_eq!(parse_expression("log(2)"), Err(ParseError::UnknownFunction));
    assert_eq!(parse_expression("sqrtx(2)"), Err(ParseError::UnknownFunction));
    assert_eq!(parse_expression("sqrt"), Err(ParseError::MissingArgument));
    assert_eq!(parse_expression("pow2 + 1"), Err(ParseError::MissingArgument));
    assert_eq!(parse_expression("(1 + 2"), Err(ParseError::UnbalancedParenthesis));
    assert_eq!(parse_expression("sqrt(4"), Err(ParseError::UnbalancedParenthesis));
    assert_eq!(parse_expression("(1 2)"), Err(ParseError::UnbalancedParenthesis));
    assert_eq!(parse_expression("1 + 2)"), Err(ParseError::UnbalancedParenthesis));
    assert_eq!(parse_expression("1 2"), Err(ParseError::TrailingInput));
    assert_eq!(parse_expression("a b"), Err(ParseError::TrailingInput));
    assert_eq!(parse_expression("1 (2)"), Err(ParseError::TrailingInput));
}

#[test]
fn the_first_fault_in_the_text_is_reported() {
    assert_eq!(parse_expression("1 + + #"), Err(ParseError::UnexpectedCharacter));
    assert_eq!(parse_expression("\"a\" # \"b"), Err(ParseError::UnexpectedCharacter));
}

#[test]
fn tokens_parse_without_a_text() {
    let tokens = vec![Token::Minus, Token::Number(2), Token::Plus, Token::Number(3)];
    assert_eq!(
        parse_tokens(&tokens),
        Ok(binary(InfixOp::Add, Expression::Negate(number(2)), Expression::Number(3)))
    );
    assert_eq!(parse_tokens(&vec![]), Err(ParseError::Empty));
}
