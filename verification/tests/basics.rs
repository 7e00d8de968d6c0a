use cdl_core::json::{get_sub_object, json_eq, object_get, JsonValue, PathError};
use cdl_core::keyed::find_key;
use cdl_core::text::{append_decimal, split_text};

fn obj(entries: Vec<(&str, JsonValue)>) -> JsonValue {
    JsonValue::Object(entries.into_iter().map(|(k, v)| (k.to_string(), v)).collect())
}

#[test]
fn dotted_paths_follow_nested_objects() {
    let doc = obj(vec![("a", obj(vec![("b", JsonValue::Number("3".to_string()))])), ("c", JsonValue::Null)]);
    assert!(matches!(get_sub_object(&doc, "a.b"), Ok(JsonValue::Number(ref n)) if n == "3"));
    assert!(matches!(get_sub_object(&doc, "c"), Ok(JsonValue::Null)));
    assert!(matches!(get_sub_object(&doc, "a.x"), Err(PathError::MissingField(ref f)) if f == "x"));
    assert!(matches!(get_sub_object(&doc, "c.d"), Err(PathError::NotAnObject(ref f)) if f == "d"));
    assert!(matches!(get_sub_object(&doc, ""), Err(PathError::MissingField(ref f)) if f.is_empty()));
}

#[test]
fn documents_compare_by_value() {
    let a = obj(vec![("x", JsonValue::Array(vec![JsonValue::Bool(true), JsonValue::Str("s".to_string())]))]);
    let b = a.duplicate();
    assert!(json_eq(&a, &b));
    assert!(!json_eq(&a, &JsonValue::Null));
    assert!(!json_eq(&JsonValue::Number("1".to_string()), &JsonValue::Number("2".to_string())));
}

#[test]
fn first_entry_of_a_key_is_found() {
    let entries = vec![("k".to_string(), JsonValue::Bool(true)), ("k".to_string(), JsonValue::Bool(false))];
    assert!(matches!(object_get(&entries, &"k".to_string()), Some(JsonValue::Bool(true))));
    assert!(object_get(&entries, &"z".to_string()).is_none());
    let keyed = vec![(5u128, "a"), (7, "b"), (5, "c")];
    assert_eq!(find_key(&keyed, 5), Some(0));
    assert_eq!(find_key(&keyed, 7), Some(1));
    assert_eq!(find_key(&keyed, 8), None);
}

#[test]
fn texts_split_and_numbers_print() {
    assert_eq!(split_text("a,,b", ','), vec!["a", "", "b"]);
    assert_eq!(split_text("", ','), vec![""]);
    assert_eq!(split_text(",", ','), vec!["", ""]);
    let mut s = "n=".to_string();
    append_decimal(&mut s, 0);
    append_decimal(&mut s, 18446744073709551615);
    assert_eq!(s, "n=018446744073709551615");
}
