use field_expr::columns::{column_specs, split_columns};

fn strings(items: &[&str]) -> Vec<String> {
    items.iter().map(|s| s.to_string()).collect()
}

#[test]
fn the_default_columns() {
    assert_eq!(
        column_specs(&None),
        strings(&["locationType", "id", "name", "latitude", "longitude"])
    );
}

#[test]
fn the_columns_that_a_request_names() {
    assert_eq!(
        column_specs(&Some("name, sqrt(distance) + id ,\t\"a, b\"".to_string())),
        strings(&["name", "sqrt(distance) + id", "\"a", "b\""])
    );
    assert_eq!(column_specs(&Some(String::new())), strings(&[""]));
}

#[test]
fn pieces_between_commas() {
    assert_eq!(split_columns(""), strings(&[""]));
    assert_eq!(split_columns("a"), strings(&["a"]));
    assert_eq!(split_columns(","), strings(&["", ""]));
    assert_eq!(split_columns("a,"), strings(&["a", ""]));
    assert_eq!(split_columns(",a"), strings(&["", "a"]));
    assert_eq!(split_columns(" a b ,, c "), strings(&["a b", "", "c"]));
    assert_eq!(split_columns("   "), strings(&[""]));
    assert_eq!(split_columns(" \n , \t "), strings(&["", ""]));
    assert_eq!(split_columns("ż , ó"), strings(&["ż", "ó"]));
}

#[test]
fn pieces_are_what_splitting_and_trimming_gives() {
    let alphabet = ['a', ',', ' ', '\t', '\u{a0}', 'ż'];
    let mut texts = vec![String::new()];
    let mut from = 0;
    for _ in 0..5 {
        let until = texts.len();
        for i in from..until {
            for c in alphabet {
                let mut longer = texts[i].clone();
                longer.push(c);
                texts.push(longer);
            }
        }
        from = until;
    }
    for text in &texts {
        let expected: Vec<String> = text.split(',').map(|x| x.trim().to_string()).collect();
        assert_eq!(split_columns(text), expected, "{:?}", text);
    }
}

#[test]
fn white_space_is_what_unicode_says() {
    for code in 0..=0x10ffffu32 {
        if let Some(c) = char::from_u32(code) {
            if c == ',' {
                continue;
            }
            let text = format!("{}a{}", c, c);
            let kept = split_columns(&text);
            assert_eq!(kept.len(), 1);
            assert_eq!(kept[0] == "a", c.is_whitespace(), "{:?}", c);
        }
    }
}
