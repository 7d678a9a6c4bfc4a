use peppi::json::{JsonMap, JsonNumber, JsonValue};

fn s(x: &str) -> JsonValue {
    JsonValue::String(x.to_string())
}

#[test]
fn insert_keeps_keys_sorted() {
    let mut m = JsonMap::new();
    assert_eq!(m.insert("b".to_string(), s("2")), None);
    assert_eq!(m.insert("a".to_string(), s("1")), None);
    assert_eq!(m.insert("c".to_string(), s("3")), None);
    assert_eq!(m.len(), 3);
    let keys: Vec<String> = (0..m.len()).map(|i| m.key_at(i).clone()).collect();
    assert_eq!(keys, vec!["a", "b", "c"]);
}

#[test]
fn insert_replaces_value() {
    let mut m = JsonMap::new();
    m.insert("k".to_string(), s("old"));
    assert_eq!(m.insert("k".to_string(), s("new")), Some(s("old")));
    assert_eq!(m.len(), 1);
    assert_eq!(m.get("k"), Some(&s("new")));
}

#[test]
fn get_after_insert() {
    let mut m = JsonMap::new();
    m.insert("x".to_string(), JsonValue::Number(JsonNumber::PosInt(5)));
    assert_eq!(m.get("x"), Some(&JsonValue::Number(JsonNumber::PosInt(5))));
    assert_eq!(m.get("y"), None);
}

#[test]
fn remove_takes_entry() {
    let mut m = JsonMap::new();
    m.insert("x".to_string(), JsonValue::Bool(true));
    m.insert("y".to_string(), JsonValue::Null);
    assert_eq!(m.remove("x"), Some(JsonValue::Bool(true)));
    assert_eq!(m.remove("x"), None);
    assert_eq!(m.len(), 1);
    assert_eq!(m.get("y"), Some(&JsonValue::Null));
    assert!(!m.is_empty());
    m.remove("y");
    assert!(m.is_empty());
}

#[test]
fn number_accessors() {
    assert_eq!(JsonNumber::PosInt(5).as_u64(), Some(5));
    assert_eq!(JsonNumber::NegInt(-5).as_u64(), None);
    assert_eq!(JsonNumber::Float(1.5f64.to_bits()).as_u64(), None);
    assert_eq!(JsonNumber::PosInt(5).as_i64(), Some(5));
    assert_eq!(JsonNumber::PosInt(u64::MAX).as_i64(), None);
    assert_eq!(JsonNumber::NegInt(-5).as_i64(), Some(-5));
    assert_eq!(JsonNumber::from_i64(-3), JsonNumber::NegInt(-3));
    assert_eq!(JsonNumber::from_i64(3), JsonNumber::PosInt(3));
    assert_eq!(JsonNumber::from_i64(0), JsonNumber::PosInt(0));
}

#[test]
fn value_accessors() {
    let mut inner = JsonMap::new();
    inner.insert("a".to_string(), JsonValue::Null);
    let o = JsonValue::Object(inner.clone());
    assert_eq!(o.as_object(), Some(&inner));
    assert_eq!(o.as_str(), None);
    assert_eq!(s("hi").as_str(), Some(&"hi".to_string()));
    assert_eq!(JsonValue::Number(JsonNumber::NegInt(-1)).as_i64(), Some(-1));
    assert_eq!(JsonValue::Null.as_u64(), None);
}

#[test]
fn clone_is_equal() {
    let mut inner = JsonMap::new();
    inner.insert("a".to_string(), JsonValue::Array(vec![JsonValue::Null, s("x")]));
    let v = JsonValue::Object(inner);
    assert_eq!(v.clone_value(), v);
    assert_eq!(v.clone(), v);
}
