use sql::extras::{
    cast_to_value, cleaned_values, get_column_index, get_columns, get_condition_columns,
    get_int_value, get_str_value, Value,
};
use sql::operations::filter;

fn strings(items: &[&str]) -> Vec<String> {
    items.iter().map(|s| s.to_string()).collect()
}

#[test]
fn test_cast_to_value_int() {
    assert_eq!(cast_to_value("42"), Value::Int(42));
}

#[test]
fn test_cast_to_value_str() {
    assert_eq!(cast_to_value("hello"), Value::Str("hello".to_string()));
}

#[test]
fn test_get_int_value_some() {
    let value = Value::Int(42);
    assert_eq!(get_int_value(&value), Some(42));
}

#[test]
fn test_get_int_value_none() {
    let value = Value::Str("hello".to_string());
    assert_eq!(get_int_value(&value), None);
}

#[test]
fn test_get_str_value_some() {
    let value = Value::Str("hello".to_string());
    assert_eq!(
        get_str_value(&value),
        Some("hello".to_string().to_lowercase())
    );
}

#[test]
fn test_get_str_value_none() {
    let value = Value::Int(42);
    assert_eq!(get_str_value(&value), None);
}

#[test]
fn test_get_columns() {
    let parsed_query = vec!["select", "column1", "column2", "from", "table"]
        .iter()
        .map(|&s| s.to_string())
        .collect::<Vec<String>>();
    assert_eq!(get_columns(&parsed_query), vec!["column1", "column2"]);
}

#[test]
fn test_get_condition_columns_with_where() {
    let parsed_query = vec![
        "select", "column1", "from", "table", "where", "column1", "=", "42",
    ]
    .iter()
    .map(|&s| s.to_string())
    .collect::<Vec<String>>();
    let length = 3;
    assert_eq!(get_condition_columns(&parsed_query).len(), length);
}

#[test]
fn test_get_condition_columns_without_where() {
    let parsed_query = vec!["select", "column1", "column2", "from", "table"]
        .iter()
        .map(|&s| s.to_string())
        .collect::<Vec<String>>();
    assert_eq!(get_condition_columns(&parsed_query), Vec::<String>::new());
}

#[test]
fn test_get_column_index_found() {
    let headers = vec![
        "column1".to_string(),
        "column2".to_string(),
        "column3".to_string(),
    ];

    let column_name = "column2";
    assert_eq!(get_column_index(&headers, column_name), 1);
}

#[test]
fn test_get_column_index_not_found() {
    let headers = vec![
        "column1".to_string(),
        "column2".to_string(),
        "column3".to_string(),
    ];
    let column_name = "column4";
    assert_eq!(get_column_index(&headers, column_name), -1);
}

#[test]
fn cast_reads_signs_and_limits() {
    assert_eq!(cast_to_value("-7"), Value::Int(-7));
    assert_eq!(cast_to_value("+7"), Value::Int(7));
    assert_eq!(cast_to_value("007"), Value::Int(7));
    assert_eq!(cast_to_value("-0"), Value::Int(0));
    assert_eq!(
        cast_to_value("9223372036854775807"),
        Value::Int(i64::MAX)
    );
    assert_eq!(
        cast_to_value("-9223372036854775808"),
        Value::Int(i64::MIN)
    );
    assert_eq!(
        cast_to_value("9223372036854775808"),
        Value::Str("9223372036854775808".to_string())
    );
    assert_eq!(
        cast_to_value("-9223372036854775809"),
        Value::Str("-9223372036854775809".to_string())
    );
    assert_eq!(
        cast_to_value("00000000000000000000000000000012"),
        Value::Int(12)
    );
}

#[test]
fn cast_keeps_what_is_no_integer() {
    for text in ["", "-", "+", " 5", "5 ", "1_000", "1.5", "12a", "--1", "٣"] {
        assert_eq!(cast_to_value(text), Value::Str(text.to_string()));
    }
}

#[test]
fn cast_agrees_with_the_standard_parser() {
    for text in ["0", "15", "-15", "+15", "abc", "", "1e3", "99999999999999999999"] {
        let expected = match text.parse::<i64>() {
            Ok(number) => Value::Int(number),
            Err(_) => Value::Str(text.to_string()),
        };
        assert_eq!(cast_to_value(text), expected);
    }
}

#[test]
fn str_value_is_folded_to_lower_case() {
    let value = Value::Str("HeLLo ÉA".to_string());
    assert_eq!(get_str_value(&value), Some("hello éa".to_string()));
}

#[test]
fn columns_of_an_update_start_behind_set() {
    let parsed_query = strings(&["update", "t", "set", "a", "=", "1", "from", "x"]);
    assert_eq!(get_columns(&parsed_query), vec!["a", "=", "1"]);
}

#[test]
fn columns_run_to_the_end_without_from() {
    let parsed_query = strings(&["select", "a", "b"]);
    assert_eq!(get_columns(&parsed_query), vec!["a", "b"]);
}

#[test]
fn columns_of_nothing_are_none() {
    assert_eq!(get_columns(&[]), Vec::<String>::new());
    let update_without_set = strings(&["update", "t", "a", "=", "1"]);
    assert_eq!(get_columns(&update_without_set), Vec::<String>::new());
}

#[test]
fn condition_starts_behind_the_first_where() {
    let parsed_query = strings(&["delete", "from", "t", "where", "a", "=", "where"]);
    assert_eq!(get_condition_columns(&parsed_query), vec!["a", "=", "where"]);
    let ends_in_where = strings(&["delete", "from", "t", "where"]);
    assert_eq!(get_condition_columns(&ends_in_where), Vec::<String>::new());
}

#[test]
fn column_index_is_that_of_the_first_match() {
    let headers = strings(&["a", "b", "a"]);
    assert_eq!(get_column_index(&headers, "a"), 0);
    assert_eq!(get_column_index(&headers, "b"), 1);
    assert_eq!(get_column_index(&headers, "A"), -1);
    assert_eq!(get_column_index(&[], "a"), -1);
}

#[test]
fn cleaned_values_strip_punctuation_then_whitespace() {
    let cleaned = cleaned_values(strings(&[
        "(id,",
        "'Laptop',",
        "3);",
        "plain",
        "",
        "(',;)",
        "a'b",
        "( x )",
        " (x) ",
    ]));
    assert_eq!(
        cleaned,
        vec!["id", "Laptop", "3", "plain", "", "", "a'b", "x", "(x)"]
    );
}

#[test]
fn filter_compares_integers() {
    assert!(filter(Value::Int(10), Value::Int(20), "<"));
    assert!(!filter(Value::Int(10), Value::Int(20), ">"));
    assert!(filter(Value::Int(20), Value::Int(10), ">"));
    assert!(filter(Value::Int(10), Value::Int(10), "="));
    assert!(!filter(Value::Int(10), Value::Int(11), "="));
    assert!(!filter(Value::Int(10), Value::Int(10), "<"));
    assert!(!filter(Value::Int(10), Value::Int(10), ">"));
}

#[test]
fn filter_compares_texts_without_case() {
    let text = |s: &str| Value::Str(s.to_string());
    assert!(filter(text("Mouse"), text("mouse"), "="));
    assert!(!filter(text("Mouse"), text("house"), "="));
    assert!(!filter(text("a"), text("b"), "<"));
    assert!(!filter(text("b"), text("a"), ">"));
}

#[test]
fn filter_never_matches_mixed_values_or_unknown_operators() {
    let text = |s: &str| Value::Str(s.to_string());
    assert!(!filter(Value::Int(1), text("1"), "="));
    assert!(!filter(text("1"), Value::Int(1), "="));
    assert!(!filter(Value::Int(1), text("a"), "<"));
    assert!(!filter(Value::Int(1), Value::Int(1), "=="));
    assert!(!filter(Value::Int(1), Value::Int(2), "<="));
    assert!(!filter(Value::Int(1), Value::Int(2), ""));
}
