use field_expr::compute::{
    compute_rows, compute_rows_from_marks, compute_rows_with, evaluate_all, parse_all, ComputeError,
};
use field_expr::data_csv::CSVData;
use field_expr::evaluator::{EvalError, Kind};
use field_expr::expression::{Decimal, Expression, InfixOp};
use field_expr::lexer::ParseError;
use field_expr::record::{fields, FakeData, GeoPosition};
use field_expr::resolver::{
    bindings_required, decide, searchable, select, word_pattern, ResolveError,
};
use indexmap::IndexMap;

fn strings(items: &[&str]) -> Vec<String> {
    items.iter().map(|s| s.to_string()).collect()
}

fn text(s: &str) -> Expression {
    Expression::Text(s.to_string())
}

fn literal(s: &str) -> Expression {
    Expression::Float(Decimal::Literal(s.to_string()))
}

fn record() -> FakeData {
    FakeData {
        _type: "Position".to_string(),
        _id: 4_000_000_000,
        key: None,
        name: "Polna".to_string(),
        full_name: "Polna, Poland".to_string(),
        iata_airport_code: Some("WAW".to_string()),
        location_type: "location".to_string(),
        country: "Poland".to_string(),
        geo_position: GeoPosition {
            latitude: "52.2296756".to_string(),
            longitude: "-21.0122287".to_string(),
        },
        location_id: 17,
        in_europe: true,
        country_code: "PL".to_string(),
        core_country: false,
        distance: None,
    }
}

#[test]
fn the_schema() {
    assert_eq!(
        fields(),
        strings(&[
            "type",
            "id",
            "key",
            "name",
            "fullName",
            "iataCode",
            "locationType",
            "country",
            "latitude",
            "longitude",
            "locationId",
            "inEurope",
            "countryCode",
            "coreCountry",
            "distance",
        ])
    );
}

#[test]
fn whole_word_field_resolution() {
    let schema = fields();
    assert_eq!(
        bindings_required(&strings(&["locationType + 1"]), &schema),
        Ok(strings(&["locationType"]))
    );
    assert_eq!(bindings_required(&strings(&["type + 1"]), &schema), Ok(strings(&["type"])));
}

#[test]
fn required_fields_come_in_schema_order() {
    let schema = fields();
    assert_eq!(
        bindings_required(&strings(&["sqrt(distance) + locationId", "name", "id * id"]), &schema),
        Ok(strings(&["id", "name", "locationId", "distance"]))
    );
    assert_eq!(
        bindings_required(&strings(&["distance", "id"]), &strings(&["id", "distance", "id"])),
        Ok(strings(&["id", "distance", "id"]))
    );
}

#[test]
fn a_name_inside_a_longer_word_is_not_required() {
    let schema = strings(&["id", "name", "key"]);
    assert_eq!(bindings_required(&strings(&["idx + names + _key + key2"]), &schema), Ok(vec![]));
    assert_eq!(
        bindings_required(&strings(&["(id)+name*key"]), &schema),
        Ok(strings(&["id", "name", "key"]))
    );
    assert_eq!(bindings_required(&strings(&["\"key\""]), &schema), Ok(strings(&["key"])));
    assert_eq!(bindings_required(&strings(&["żkey", "keyż"]), &schema), Ok(vec![]));
    assert_eq!(bindings_required(&strings(&["ż key"]), &schema), Ok(strings(&["key"])));
}

/// Whether the word stands in the text with no letter, digit or underscore
/// next to it.
fn stands_somewhere(word: &str, text: &str) -> bool {
    let word: Vec<char> = word.chars().collect();
    let text: Vec<char> = text.chars().collect();
    let part = |c: char| c.is_ascii_alphanumeric() || c == '_';
    (0..text.len() + 1).any(|at| {
        at + word.len() <= text.len()
            && text[at..at + word.len()] == word[..]
            && (at == 0 || !part(text[at - 1]))
            && (at + word.len() == text.len() || !part(text[at + word.len()]))
    })
}

#[test]
fn every_short_text_is_searched_as_defined() {
    let alphabet = ['a', 'b', '_', '1', ' ', '+'];
    let mut texts = vec![String::new()];
    let mut from = 0;
    for _ in 0..4 {
        let until = texts.len();
        for i in from..until {
            for c in alphabet {
                let mut longer = texts[i].clone();
                longer.push(c);
                texts.push(longer);
            }
        }
        from = until;
    }
    assert_eq!(texts.len(), 1 + 6 + 36 + 216 + 1296);
    for word in ["a", "ab", "_1", "b_a"] {
        let schema = vec![word.to_string()];
        for text in &texts {
            let expected = if stands_somewhere(word, text) { schema.clone() } else { vec![] };
            assert_eq!(
                bindings_required(&vec![text.clone()], &schema),
                Ok(expected),
                "{:?} in {:?}",
                word,
                text
            );
        }
    }
}

#[test]
fn names_with_a_hit_are_selected_in_their_order() {
    let names = strings(&["a", "b", "c"]);
    assert_eq!(
        select(&names, &vec![Some(true), Some(false), Some(true)]),
        Ok(strings(&["a", "c"]))
    );
    assert_eq!(select(&names, &vec![Some(false), Some(true)]), Ok(strings(&["b"])));
    assert_eq!(
        select(&names, &vec![Some(true), Some(true), Some(true), Some(true)]),
        Ok(names.clone())
    );
    assert_eq!(select(&names, &vec![]), Ok(vec![]));
    assert_eq!(select(&vec![], &vec![Some(true)]), Ok(vec![]));
}

#[test]
fn a_refusal_among_the_marks_selects_nothing() {
    let names = strings(&["a", "b", "c"]);
    assert_eq!(
        select(&names, &vec![Some(true), None, Some(true)]),
        Err(ResolveError::PatternRejected)
    );
    assert_eq!(select(&names, &vec![None]), Err(ResolveError::PatternRejected));
    assert_eq!(
        select(&names, &vec![Some(true), Some(false), Some(true), None]),
        Ok(strings(&["a", "c"]))
    );
    assert_eq!(
        select(&strings(&["a", "b c"]), &vec![None, Some(true)]),
        Err(ResolveError::InvalidFieldName)
    );
    assert_eq!(select(&strings(&[""]), &vec![]), Err(ResolveError::InvalidFieldName));
}

#[test]
fn the_first_hit_or_refusal_decides() {
    assert_eq!(decide(&vec![]), Some(false));
    assert_eq!(decide(&vec![Some(false), Some(false)]), Some(false));
    assert_eq!(decide(&vec![Some(false), Some(true), None]), Some(true));
    assert_eq!(decide(&vec![Some(false), None, Some(true)]), None);
    assert_eq!(decide(&vec![None]), None);
    assert_eq!(decide(&vec![Some(true)]), Some(true));
}

#[test]
fn the_pattern_of_a_word() {
    assert_eq!(word_pattern("type"), "\\btype\\b");
    assert_eq!(word_pattern("_1"), "\\b_1\\b");
    assert_eq!(word_pattern(""), "\\b\\b");
}

#[test]
fn nothing_is_required_without_texts_or_without_names() {
    assert_eq!(bindings_required(&vec![], &fields()), Ok(vec![]));
    assert_eq!(bindings_required(&strings(&["id"]), &vec![]), Ok(vec![]));
}

#[test]
fn a_schema_with_an_unsearchable_name_is_refused() {
    assert_eq!(
        bindings_required(&strings(&["a"]), &strings(&["a", "b.c"])),
        Err(ResolveError::InvalidFieldName)
    );
    assert_eq!(
        bindings_required(&vec![], &strings(&[""])),
        Err(ResolveError::InvalidFieldName)
    );
    assert!(searchable("iata_airport_code2"));
    assert!(!searchable(""));
    assert!(!searchable("a b"));
    assert!(!searchable("żółw"));
    assert!(!searchable("a(b"));
}

#[test]
fn a_name_too_long_to_search_for_is_refused() {
    let long = "a".repeat(1_000_000);
    assert!(searchable(&long));
    assert_eq!(
        bindings_required(&strings(&["a + 1"]), &vec![long.clone()]),
        Err(ResolveError::PatternRejected)
    );
    assert_eq!(bindings_required(&vec![], &vec![long]), Ok(vec![]));
}

#[test]
fn the_value_of_each_field() {
    let r = record();
    let value = |name: &str| r.field(&name.to_string());
    assert_eq!(value("type"), Some(text("Position")));
    assert_eq!(value("id"), Some(Expression::Number(4_000_000_000)));
    assert_eq!(value("key"), Some(text("null")));
    assert_eq!(value("name"), Some(text("Polna")));
    assert_eq!(value("fullName"), Some(text("Polna, Poland")));
    assert_eq!(value("iataCode"), Some(text("WAW")));
    assert_eq!(value("locationType"), Some(text("location")));
    assert_eq!(value("country"), Some(text("Poland")));
    assert_eq!(value("latitude"), Some(literal("52.2296756")));
    assert_eq!(value("longitude"), Some(literal("-21.0122287")));
    assert_eq!(value("locationId"), Some(Expression::Number(17)));
    assert_eq!(value("inEurope"), Some(text("true")));
    assert_eq!(value("countryCode"), Some(text("PL")));
    assert_eq!(value("coreCountry"), Some(text("false")));
    assert_eq!(value("distance"), Some(Expression::Float(Decimal::Whole(0))));
    assert_eq!(value("Type"), None);
    assert_eq!(value(""), None);
    let mut far = record();
    far.distance = Some(Decimal::Literal("16".to_string()));
    far.key = Some("k".to_string());
    assert_eq!(far.field(&"distance".to_string()), Some(literal("16")));
    assert_eq!(far.field(&"key".to_string()), Some(text("k")));
}

#[test]
fn the_binding_table_keeps_the_order_of_the_names() {
    let map = record().get_filtered_indexmap(&strings(&["name", "id", "nothing", "name"]));
    let mut expected: IndexMap<String, Expression> = IndexMap::new();
    expected.insert("name".to_string(), text("Polna"));
    expected.insert("id".to_string(), Expression::Number(4_000_000_000));
    expected.insert("None".to_string(), text("None"));
    assert_eq!(map, expected);
    let names: Vec<&String> = map.keys().collect();
    assert_eq!(names, vec!["name", "id", "None"]);
    assert!(record().get_filtered_indexmap(&vec![]).is_empty());
}

#[test]
fn computed_cells_of_a_record() {
    let cells = record()
        .to_computed_vec(&strings(&["name + \", \" + country", "locationId * 2", "inEurope"]))
        .unwrap();
    assert_eq!(cells, vec![text("Polna, Poland"), Expression::Number(34), text("true")]);
    assert_eq!(record().to_computed_vec(&vec![]), Ok(vec![]));
}

#[test]
fn a_decimal_cell_is_a_recipe() {
    let cells = record().to_computed_vec(&strings(&["latitude + locationId"])).unwrap();
    assert_eq!(
        cells,
        vec![Expression::Float(Decimal::Combine(
            InfixOp::Add,
            Box::new(Decimal::Literal("52.2296756".to_string())),
            Box::new(Decimal::Whole(17)),
        ))]
    );
}

#[test]
fn the_first_failing_cell_is_reported() {
    assert_eq!(
        record().to_computed_vec(&strings(&["id", "id +", "missing"])),
        Err(ComputeError::Parse(1, ParseError::UnexpectedEnd))
    );
    assert_eq!(
        record().to_computed_vec(&strings(&["id", "missing", "id +"])),
        Err(ComputeError::Eval(1, EvalError::UnknownConstant("missing".to_string())))
    );
    assert_eq!(
        record().to_computed_vec(&strings(&["name - id"])),
        Err(ComputeError::Eval(
            0,
            EvalError::UnsupportedOperation(InfixOp::Subtract, Kind::Text, Kind::Number)
        ))
    );
}

#[test]
fn only_the_fields_referred_to_are_bound() {
    let with = record().compute_with(&strings(&["id"]), &strings(&["id"]));
    assert_eq!(with, Ok(vec![Expression::Number(4_000_000_000)]));
    let without = record().compute_with(&strings(&["id"]), &strings(&["name"]));
    assert_eq!(
        without,
        Err(ComputeError::Eval(0, EvalError::UnknownConstant("id".to_string())))
    );
    let unknown = record().compute_with(&strings(&["None"]), &strings(&["nothing"]));
    assert_eq!(unknown, Ok(vec![text("None")]));
}

fn marks(hits: &[&str]) -> Vec<Option<bool>> {
    fields().iter().map(|name| Some(hits.contains(&name.as_str()))).collect()
}

#[test]
fn cells_from_the_marks_of_the_search() {
    let cells = record().compute_from_marks(&strings(&["name", "pow2(3)"]), &marks(&["name"]));
    assert_eq!(cells, Ok(vec![text("Polna"), Expression::Number(9)]));
    assert_eq!(
        record().compute_from_marks(&strings(&["type + 1"]), &marks(&["type"])),
        Err(ComputeError::Eval(
            0,
            EvalError::UnsupportedOperation(InfixOp::Add, Kind::Text, Kind::Number)
        ))
    );
    assert_eq!(
        record().compute_from_marks(&strings(&["type + 1"]), &marks(&[])),
        Err(ComputeError::Eval(0, EvalError::UnknownConstant("type".to_string())))
    );
    let mut refused = marks(&["name"]);
    refused[14] = None;
    assert_eq!(
        record().compute_from_marks(&strings(&["name"]), &refused),
        Err(ComputeError::Resolve(ResolveError::PatternRejected))
    );
    let every: Vec<&str> = vec![
        "type", "id", "key", "name", "fullName", "iataCode", "locationType", "country",
        "latitude", "longitude", "locationId", "inEurope", "countryCode", "coreCountry",
        "distance",
    ];
    let texts = strings(&["name + country", "locationId * id", "missing", "latitude"]);
    assert_eq!(
        record().compute_from_marks(&texts, &marks(&every)),
        record().to_computed_vec(&texts)
    );
    let texts = strings(&["name + country", "locationId * id", "latitude / distance"]);
    let all = record().compute_from_marks(&texts, &marks(&every));
    assert!(all.is_ok());
    assert_eq!(all, record().to_computed_vec(&texts));
}

#[test]
fn rows_from_the_marks_of_the_search() {
    let mut second = record();
    second.location_id = 0;
    let records = vec![record(), second];
    assert_eq!(
        compute_rows_from_marks(
            &records,
            &strings(&["name", "locationId"]),
            &marks(&["name", "locationId"])
        ),
        Ok(vec![
            vec![text("Polna"), Expression::Number(17)],
            vec![text("Polna"), Expression::Number(0)],
        ])
    );
    assert_eq!(
        compute_rows_from_marks(&records, &strings(&["name - name"]), &marks(&["name"])),
        Err(ComputeError::Eval(
            0,
            EvalError::UnsupportedOperation(InfixOp::Subtract, Kind::Text, Kind::Text)
        ))
    );
    let mut refused = marks(&["name"]);
    refused[0] = None;
    assert_eq!(
        compute_rows_from_marks(&records, &strings(&["name"]), &refused),
        Err(ComputeError::Resolve(ResolveError::PatternRejected))
    );
    assert_eq!(
        compute_rows_from_marks(&records, &strings(&["name +"]), &refused),
        Err(ComputeError::Parse(0, ParseError::UnexpectedEnd))
    );
    assert_eq!(
        compute_rows(&records, &strings(&["name - name"])),
        Err(ComputeError::Eval(
            0,
            EvalError::UnsupportedOperation(InfixOp::Subtract, Kind::Text, Kind::Text)
        ))
    );
}

#[test]
fn rows_of_several_records() {
    let mut second = record();
    second.location_id = 5;
    second.name = "Lipowa".to_string();
    let records = vec![record(), second];
    let rows = compute_rows(&records, &strings(&["name", "locationId - 7"])).unwrap();
    assert_eq!(
        rows,
        vec![
            vec![text("Polna"), Expression::Number(10)],
            vec![text("Lipowa"), Expression::Number(-2)],
        ]
    );
    assert_eq!(compute_rows(&vec![], &strings(&["name"])), Ok(vec![]));
    assert_eq!(compute_rows(&records, &vec![]), Ok(vec![vec![], vec![]]));
}

#[test]
fn rows_fail_on_the_first_fault() {
    let mut second = record();
    second.location_id = 0;
    let records = vec![record(), second];
    assert_eq!(
        compute_rows(&records, &strings(&["missing", "1 +"])),
        Err(ComputeError::Parse(1, ParseError::UnexpectedEnd))
    );
    assert_eq!(
        compute_rows(&records, &strings(&["id", "34 / locationId"])),
        Err(ComputeError::Eval(1, EvalError::DivisionByZero))
    );
    assert_eq!(
        compute_rows(&vec![], &strings(&["1 +"])),
        Err(ComputeError::Parse(0, ParseError::UnexpectedEnd))
    );
}

#[test]
fn rows_from_trees_and_names() {
    let trees = parse_all(&strings(&["id", "1 + 1"])).unwrap();
    let rows = compute_rows_with(&vec![record()], &strings(&["id"]), &trees);
    assert_eq!(rows, Ok(vec![vec![Expression::Number(4_000_000_000), Expression::Number(2)]]));
    assert_eq!(
        parse_all(&strings(&["1", ")", "("])),
        Err(ComputeError::Parse(1, ParseError::UnexpectedToken))
    );
    let mut map: IndexMap<String, Expression> = IndexMap::new();
    map.insert("id".to_string(), Expression::Number(3));
    assert_eq!(
        evaluate_all(&trees, &map),
        Ok(vec![Expression::Number(3), Expression::Number(2)])
    );
    assert_eq!(
        evaluate_all(&trees, &IndexMap::new()),
        Err(ComputeError::Eval(0, EvalError::UnknownConstant("id".to_string())))
    );
}

#[test]
fn the_plain_row() {
    let row = CSVData::from(record());
    assert_eq!(
        row,
        CSVData {
            location_type: "location".to_string(),
            _id: 4_000_000_000,
            name: "Polna".to_string(),
            latitude: "52.2296756".to_string(),
            longitude: "-21.0122287".to_string(),
        }
    );
}
