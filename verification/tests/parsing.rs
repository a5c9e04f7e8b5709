use craptent::parse::{parse_bool_or_default, split_at_char, value_of_raw};
use craptent::{FieldType, Value};

fn texts(parts: &[&str]) -> Value {
    Value::Array(parts.iter().map(|s| Value::Text(s.to_string())).collect())
}

#[test]
fn bool_rule_accepts_only_true_and_false() {
    assert_eq!(parse_bool_or_default(&"true".to_string()), (true, false));
    assert_eq!(parse_bool_or_default(&"false".to_string()), (false, false));
    assert_eq!(parse_bool_or_default(&"TRUE".to_string()), (false, true));
    assert_eq!(parse_bool_or_default(&"garbage".to_string()), (false, true));
    assert_eq!(parse_bool_or_default(&String::new()), (false, true));
}

#[test]
fn array_string_of_empty_raw_is_one_empty_element() {
    let v = value_of_raw(FieldType::ArrayText, &String::new(), &Vec::new());
    assert_eq!(v, texts(&[""]));
}

#[test]
fn array_string_splits_on_commas() {
    let v = value_of_raw(FieldType::ArrayText, &"a,b,c".to_string(), &Vec::new());
    assert_eq!(v, texts(&["a", "b", "c"]));
}

#[test]
fn array_string_keeps_empty_pieces() {
    let v = value_of_raw(FieldType::ArrayText, &"x,,y,".to_string(), &Vec::new());
    assert_eq!(v, texts(&["x", "", "y", ""]));
}

#[test]
fn split_at_char_matches_the_split_rule() {
    let pieces = split_at_char(&"a.b..c".to_string(), '.');
    assert_eq!(
        pieces,
        vec![
            "a".to_string(),
            "b".to_string(),
            String::new(),
            "c".to_string()
        ]
    );
    assert_eq!(split_at_char(&String::new(), '.'), vec![String::new()]);
}

#[test]
fn text_rule_keeps_the_raw_verbatim() {
    let v = value_of_raw(FieldType::Text, &"as, is. {0}".to_string(), &Vec::new());
    assert_eq!(v, Value::Text("as, is. {0}".to_string()));
}

#[test]
fn bool_value_defaults_to_false() {
    let v = value_of_raw(FieldType::Bool, &"yes".to_string(), &Vec::new());
    assert_eq!(v, Value::Boolean(false));
    let v = value_of_raw(FieldType::Bool, &"true".to_string(), &Vec::new());
    assert_eq!(v, Value::Boolean(true));
}

#[test]
fn number_value_takes_the_supplied_word() {
    let bits = 2.5f64.to_bits();
    let v = value_of_raw(FieldType::Number, &"2.5".to_string(), &vec![Some(bits)]);
    assert_eq!(v, Value::Number(bits));
}

#[test]
fn number_value_defaults_to_the_zero_word() {
    let v = value_of_raw(FieldType::Number, &"garbage".to_string(), &vec![None]);
    assert_eq!(v, Value::Number(0));
    assert_eq!(0u64, 0.0f64.to_bits());
}

#[test]
fn array_number_pairs_pieces_with_words() {
    let one = 1.0f64.to_bits();
    let three = 3.5f64.to_bits();
    let v = value_of_raw(
        FieldType::ArrayNumber,
        &"1,x,3.5".to_string(),
        &vec![Some(one), None, Some(three)],
    );
    assert_eq!(
        v,
        Value::Array(vec![
            Value::Number(one),
            Value::Number(0),
            Value::Number(three)
        ])
    );
}

#[test]
fn array_bool_parses_each_piece() {
    let v = value_of_raw(
        FieldType::ArrayBool,
        &"true,x,false".to_string(),
        &Vec::new(),
    );
    assert_eq!(
        v,
        Value::Array(vec![
            Value::Boolean(true),
            Value::Boolean(false),
            Value::Boolean(false)
        ])
    );
}

#[test]
fn object_rule_ignores_the_raw() {
    let v = value_of_raw(FieldType::Object, &"ignored".to_string(), &Vec::new());
    assert_eq!(v, Value::Object(vec![]));
}
