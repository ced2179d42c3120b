use colophon::meta::{Mapping, Value};

#[test]
fn inserting_an_existing_key_replaces_it_in_place() {
    let mut m = Mapping::new();
    m.insert("a".into(), Value::Int(1));
    m.insert("b".into(), Value::Int(2));
    m.insert("a".into(), Value::Int(3));
    assert_eq!(m.len(), 2);
    let keys: Vec<&str> = m.iter().iter().map(|(k, _)| k.as_str()).collect();
    assert_eq!(keys, vec!["a", "b"]);
    assert!(matches!(m.get("a"), Some(Value::Int(3))));
    assert!(m.get("c").is_none());
    assert!(!m.is_empty());
}

#[test]
fn lookups_on_values() {
    let mut m = Mapping::new();
    m.insert("title".into(), Value::String("T".into()));
    m.insert("draft".into(), Value::Bool(true));
    let v = Value::Mapping(m);
    assert_eq!(v.get("title").and_then(Value::as_str), Some("T"));
    assert_eq!(v.get("draft").and_then(Value::as_bool), Some(true));
    assert_eq!(v.get("title").and_then(Value::as_bool), None);
    assert!(v.as_mapping().is_some());
    assert!(Value::Null.get("title").is_none());
    assert!(Value::Null.is_null());
    assert!(!v.is_null());
}

#[test]
fn link_strings_take_strings_and_string_items() {
    assert_eq!(Value::String("a.md".into()).link_strings(), vec!["a.md".to_string()]);
    let seq = Value::Sequence(vec![Value::String("a.md".into()), Value::Null, Value::String("b.md".into())]);
    assert_eq!(seq.link_strings(), vec!["a.md".to_string(), "b.md".to_string()]);
    assert!(Value::Int(3).link_strings().is_empty());
    assert!(Value::Mapping(Mapping::new()).link_strings().is_empty());
}
