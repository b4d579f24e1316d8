use bragi::coerce::{coerce_override, parse_bool, parse_i64, split_override};
use bragi::value::Leaf;

#[test]
fn coerces_true_to_boolean() {
    assert_eq!(coerce_override("true"), Leaf::Bool(true));
    assert_eq!(coerce_override("false"), Leaf::Bool(false));
}

#[test]
fn coerces_decimal_to_integer() {
    assert_eq!(coerce_override("42"), Leaf::Int(42));
    assert_eq!(coerce_override("-7"), Leaf::Int(-7));
    assert_eq!(coerce_override("+7"), Leaf::Int(7));
    assert_eq!(coerce_override("042"), Leaf::Int(42));
}

#[test]
fn coerces_fraction_to_float_rendering() {
    assert_eq!(coerce_override("3.14"), Leaf::Float("3.14".to_string()));
    // The rendering is canonical, not the input text.
    assert_eq!(coerce_override("2.50"), Leaf::Float("2.5".to_string()));
}

#[test]
fn keeps_other_text_as_string() {
    assert_eq!(coerce_override("hello"), Leaf::Str("hello".to_string()));
    assert_eq!(coerce_override(""), Leaf::Str("".to_string()));
    assert_eq!(coerce_override("True"), Leaf::Str("True".to_string()));
}

#[test]
fn integer_range_edges() {
    assert_eq!(parse_i64("9223372036854775807"), Some(i64::MAX));
    assert_eq!(parse_i64("-9223372036854775808"), Some(i64::MIN));
    assert_eq!(parse_i64("9223372036854775808"), None);
    assert_eq!(parse_i64("-9223372036854775809"), None);
    assert_eq!(parse_i64(""), None);
    assert_eq!(parse_i64("-"), None);
    assert_eq!(parse_i64("1 2"), None);
}

#[test]
fn integer_overflow_falls_back_to_number_rendering() {
    assert_eq!(
        coerce_override("9223372036854775808"),
        Leaf::Float("9223372036854775808".to_string())
    );
}

#[test]
fn bool_parse_is_exact() {
    assert_eq!(parse_bool("true"), Some(true));
    assert_eq!(parse_bool("false"), Some(false));
    assert_eq!(parse_bool("TRUE"), None);
    assert_eq!(parse_bool(""), None);
}

#[test]
fn splits_a_single_key_value_pair() {
    assert_eq!(
        split_override("a=b"),
        Some(("a".to_string(), "b".to_string()))
    );
    assert_eq!(
        split_override("service.port=4000"),
        Some(("service.port".to_string(), "4000".to_string()))
    );
    assert_eq!(split_override("a="), Some(("a".to_string(), "".to_string())));
}

#[test]
fn rejects_strings_without_exactly_one_equals() {
    assert_eq!(split_override("1,2"), None);
    assert_eq!(split_override(""), None);
    assert_eq!(split_override("a=b=c"), None);
}
