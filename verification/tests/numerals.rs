use field_expr::compute::ComputeError;
use field_expr::expression::{Decimal, Expression, InfixOp};
use field_expr::numeral::is_decimal;
use field_expr::parser::parse_expression;
use field_expr::record::{FakeData, GeoPosition};

const CORPUS: [&str; 72] = [
    "", " ", "0", "7", "007", "-0", "+0", "1234567890", "1.5", "-1.5", "+1.5", "1.", ".5", "-.5",
    "+.5", ".", "-", "+", "-.", "1..5", "1.5.", "1.5.2", "1e5", "1E5", "1e+5", "1e-5", "1.e5",
    ".5e5", "1.5e5", "1e", "1e+", "1e-", "e5", ".e5", "1e5.0", "1e5e5", "1e 5", "1 ", " 1", "1_0",
    "inf", "-inf", "+inf", "INF", "Inf", "infinity", "-Infinity", "INFINITY", "infinit",
    "infinityy",
    "nan", "NaN", "-nan", "+NAN", "na", "nanx", "in", "i", "n", "--1", "+-1", "1-", "0x10", "1,5",
    "52.2296756", "-21.0122287", "179.9999999", "12345678901234567890123456789.5", "1e400",
    "0.0000000000000000000000000000000000000000000000000000000001", "٣", "1٣",
];

#[test]
fn decimal_texts_are_the_texts_that_read_as_a_double() {
    for text in CORPUS {
        assert_eq!(is_decimal(text), text.parse::<f64>().is_ok(), "{:?}", text);
    }
}

#[test]
fn some_decimal_texts() {
    assert!(is_decimal("52.2296756"));
    assert!(is_decimal("-.5e-3"));
    assert!(is_decimal("+Infinity"));
    assert!(!is_decimal(""));
    assert!(!is_decimal("."));
    assert!(!is_decimal("1e"));
    assert!(!is_decimal("abc"));
    assert!(!is_decimal("1.5 "));
}

#[test]
fn what_a_double_is_written_as_is_a_decimal_text() {
    for value in [0.0, -0.0, 1.5, -2.25, 1e21, 1e-7, f64::MAX, f64::MIN_POSITIVE, 5e-324] {
        assert!(is_decimal(&value.to_string()), "{}", value);
    }
    assert!(is_decimal(&f64::INFINITY.to_string()));
    assert!(is_decimal(&f64::NEG_INFINITY.to_string()));
    assert!(is_decimal(&f64::NAN.to_string()));
}

fn literal(text: &str) -> Decimal {
    Decimal::Literal(text.to_string())
}

#[test]
fn numeric_recipes() {
    assert!(Decimal::Whole(-3).is_numeric());
    assert!(literal("1.5").is_numeric());
    assert!(!literal("one").is_numeric());
    let good = Decimal::Combine(
        InfixOp::Add,
        Box::new(Decimal::SquareRoot(Box::new(literal("2")))),
        Box::new(Decimal::Negate(Box::new(Decimal::Square(Box::new(literal(".5")))))),
    );
    assert!(good.is_numeric());
    let bad = Decimal::Combine(
        InfixOp::Add,
        Box::new(Decimal::SquareRoot(Box::new(literal("2")))),
        Box::new(Decimal::Negate(Box::new(Decimal::Square(Box::new(literal("")))))),
    );
    assert!(!bad.is_numeric());
    assert!(Expression::Float(good).is_numeric());
    assert!(!Expression::Float(bad).is_numeric());
    assert!(Expression::Text("one".to_string()).is_numeric());
}

#[test]
fn parsed_trees_are_numeric() {
    for text in ["1.5 + 2", "sqrt(0.25) * -(3.0 / x)", "\"1.x\" + \"y\"", "007.100"] {
        assert!(parse_expression(text).unwrap().is_numeric(), "{}", text);
    }
}

fn record(latitude: &str, longitude: &str, distance: Option<Decimal>) -> FakeData {
    FakeData {
        _type: "Position".to_string(),
        _id: 1,
        key: None,
        name: "Polna".to_string(),
        full_name: "Polna, Poland".to_string(),
        iata_airport_code: None,
        location_type: "location".to_string(),
        country: "Poland".to_string(),
        geo_position: GeoPosition {
            latitude: latitude.to_string(),
            longitude: longitude.to_string(),
        },
        location_id: 2,
        in_europe: true,
        country_code: "PL".to_string(),
        core_country: true,
        distance,
    }
}

#[test]
fn well_formed_records() {
    assert!(record("52.2296756", "-21.0122287", None).is_well_formed());
    assert!(record("52", "21", Some(literal("16"))).is_well_formed());
    assert!(!record("north", "21", None).is_well_formed());
    assert!(!record("52", "", None).is_well_formed());
    assert!(!record("52", "21", Some(literal("far"))).is_well_formed());
}

#[test]
fn cells_of_a_well_formed_record_are_numeric() {
    let r = record("52.5", "-21.25", Some(literal("16")));
    let fields: Vec<String> =
        ["sqrt(distance) + latitude * 2", "longitude / id", "name", "pow2(1.5)"]
            .iter()
            .map(|s| s.to_string())
            .collect();
    let cells = r.to_computed_vec(&fields).unwrap();
    assert_eq!(cells.len(), 4);
    for cell in &cells {
        assert!(cell.is_numeric());
    }
    let odd = record("north", "-21.25", None);
    let cells = odd.to_computed_vec(&fields).unwrap();
    assert!(!cells[0].is_numeric());
    assert!(cells[1].is_numeric());
    let none: Result<Vec<Expression>, ComputeError> = odd.to_computed_vec(&vec![]);
    assert_eq!(none, Ok(vec![]));
}
