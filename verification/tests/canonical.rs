use gc1805::canonical::{canonical_hash, to_canonical_string, CanonicalJsonError, JsonNumber, JsonValue};

fn num(i: i64) -> JsonValue {
    JsonValue::Number(JsonNumber::Int(i))
}

fn text(s: &str) -> JsonValue {
    JsonValue::String(s.to_string())
}

fn object(members: Vec<(&str, JsonValue)>) -> JsonValue {
    JsonValue::Object(members.into_iter().map(|(k, v)| (k.to_string(), v)).collect())
}

#[test]
fn keys_are_sorted() {
    let v = object(vec![("z", num(1)), ("a", num(2)), ("m", num(3))]);
    let s = to_canonical_string(&v).unwrap();
    assert_eq!(s, r#"{"a":2,"m":3,"z":1}"#);
}

#[test]
fn nulls_dropped_in_objects() {
    let v = object(vec![("a", num(1)), ("b", JsonValue::Null), ("c", num(3))]);
    let s = to_canonical_string(&v).unwrap();
    assert_eq!(s, r#"{"a":1,"c":3}"#);
}

#[test]
fn null_at_top_level_errors() {
    let r = to_canonical_string(&JsonValue::Null);
    assert!(matches!(r, Err(CanonicalJsonError::NullForbidden)));
}

#[test]
fn null_in_array_errors() {
    let r = to_canonical_string(&JsonValue::Array(vec![num(1), JsonValue::Null]));
    assert_eq!(r, Err(CanonicalJsonError::NullForbidden));
}

#[test]
fn floats_rejected() {
    let v = object(vec![("x", JsonValue::Number(JsonNumber::Other("1.5".to_string())))]);
    let r = to_canonical_string(&v);
    assert!(matches!(r, Err(CanonicalJsonError::FloatForbidden(_))));
}

#[test]
fn first_error_in_writing_order_wins() {
    let v = JsonValue::Array(vec![
        JsonValue::Number(JsonNumber::Other("2.5".to_string())),
        JsonValue::Null,
    ]);
    assert_eq!(
        to_canonical_string(&v),
        Err(CanonicalJsonError::FloatForbidden("2.5".to_string()))
    );
}

#[test]
fn nested_keys_sorted() {
    let v = object(vec![
        ("outer", object(vec![("z", num(1)), ("a", num(2))])),
        ("alpha", JsonValue::Array(vec![object(vec![("y", num(1)), ("x", num(2))])])),
    ]);
    let s = to_canonical_string(&v).unwrap();
    assert_eq!(s, r#"{"alpha":[{"x":2,"y":1}],"outer":{"a":2,"z":1}}"#);
}

#[test]
fn hash_is_stable() {
    let a = object(vec![("a", num(1)), ("b", num(2))]);
    let b = object(vec![("b", num(2)), ("a", num(1))]);
    let ha = canonical_hash(&a).unwrap();
    let hb = canonical_hash(&b).unwrap();
    assert_eq!(ha, hb);
}

#[test]
fn hash_is_64_hex() {
    let a = object(vec![("a", num(1))]);
    let h = canonical_hash(&a).unwrap();
    assert_eq!(h.len(), 64);
    assert!(h.chars().all(|c| c.is_ascii_hexdigit()));
}

#[test]
fn hash_of_known_text() {
    // Different canonical texts ("[]" and "{}") hash differently.
    let a = canonical_hash(&JsonValue::Array(vec![])).unwrap();
    let b = canonical_hash(&object(vec![])).unwrap();
    assert_ne!(a, b);
}

#[test]
fn strings_escape_control_chars() {
    let v = object(vec![("x", text("a\nb\tc"))]);
    let s = to_canonical_string(&v).unwrap();
    assert_eq!(s, r#"{"x":"a\nb\tc"}"#);
}

#[test]
fn strings_escape_quotes_and_low_controls() {
    let v = text("q\"\\\u{1}\u{8}\u{c}\r");
    let s = to_canonical_string(&v).unwrap();
    assert_eq!(s, "\"q\\\"\\\\\\u0001\\b\\f\\r\"");
}

#[test]
fn arrays_preserve_order() {
    let v = JsonValue::Array(vec![num(3), num(1), num(2)]);
    let s = to_canonical_string(&v).unwrap();
    assert_eq!(s, "[3,1,2]");
}

#[test]
fn integers_and_booleans() {
    let v = JsonValue::Array(vec![
        num(-42),
        JsonValue::Number(JsonNumber::UInt(18446744073709551615)),
        JsonValue::Bool(true),
        JsonValue::Bool(false),
        num(i64::MIN),
    ]);
    assert_eq!(
        to_canonical_string(&v).unwrap(),
        "[-42,18446744073709551615,true,false,-9223372036854775808]"
    );
}
