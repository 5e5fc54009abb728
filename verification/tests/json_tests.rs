use outlayer_scheduler::json::{
    is_finite_bits, json_clone, json_set_field, toml_to_json, JsonNumber, JsonValue, TomlValue,
};

fn obj_get<'a>(v: &'a JsonValue, k: &str) -> Option<&'a JsonValue> {
    match v {
        JsonValue::Object(es) => es.iter().find(|(kk, _)| kk == k).map(|(_, v)| v),
        _ => None,
    }
}

#[test]
fn scalars_convert() {
    assert!(matches!(toml_to_json(&TomlValue::Integer(5)), JsonValue::Number(JsonNumber::PosInt(5))));
    assert!(matches!(toml_to_json(&TomlValue::Integer(0)), JsonValue::Number(JsonNumber::PosInt(0))));
    assert!(matches!(toml_to_json(&TomlValue::Integer(-7)), JsonValue::Number(JsonNumber::NegInt(-7))));
    let b = 2.5f64.to_bits();
    assert!(matches!(toml_to_json(&TomlValue::Float(b)), JsonValue::Number(JsonNumber::Float(x)) if x == b));
    assert!(matches!(toml_to_json(&TomlValue::Float(f64::NAN.to_bits())), JsonValue::Null));
    assert!(matches!(toml_to_json(&TomlValue::Float(f64::INFINITY.to_bits())), JsonValue::Null));
    assert!(matches!(toml_to_json(&TomlValue::Boolean(true)), JsonValue::Bool(true)));
    match toml_to_json(&TomlValue::Datetime("1979-05-27T07:32:00Z".to_string())) {
        JsonValue::String(s) => assert_eq!(s, "1979-05-27T07:32:00Z"),
        other => panic!("unexpected {:?}", other),
    }
}

#[test]
fn finite_bits() {
    assert!(is_finite_bits(1.0f64.to_bits()));
    assert!(is_finite_bits(f64::MAX.to_bits()));
    assert!(!is_finite_bits(f64::NEG_INFINITY.to_bits()));
    assert!(!is_finite_bits(f64::NAN.to_bits()));
}

#[test]
fn tables_and_arrays_convert() {
    let t = TomlValue::Table(vec![
        ("command".to_string(), TomlValue::String("tick".to_string())),
        (
            "list".to_string(),
            TomlValue::Array(vec![TomlValue::Integer(1), TomlValue::Boolean(false)]),
        ),
    ]);
    let j = toml_to_json(&t);
    match obj_get(&j, "command") {
        Some(JsonValue::String(s)) => assert_eq!(s, "tick"),
        other => panic!("unexpected {:?}", other),
    }
    match obj_get(&j, "list") {
        Some(JsonValue::Array(items)) => {
            assert_eq!(items.len(), 2);
            assert!(matches!(items[0], JsonValue::Number(JsonNumber::PosInt(1))));
            assert!(matches!(items[1], JsonValue::Bool(false)));
        }
        other => panic!("unexpected {:?}", other),
    }
}

#[test]
fn setting_fields() {
    let v = json_set_field(JsonValue::Null, "a".to_string(), JsonValue::Bool(true));
    assert!(matches!(obj_get(&v, "a"), Some(JsonValue::Bool(true))));
    let v = json_set_field(v, "b".to_string(), JsonValue::Null);
    let v = json_set_field(v, "a".to_string(), JsonValue::Bool(false));
    match &v {
        JsonValue::Object(es) => assert_eq!(es.len(), 2),
        _ => panic!("not an object"),
    }
    assert!(matches!(obj_get(&v, "a"), Some(JsonValue::Bool(false))));
    assert!(matches!(obj_get(&v, "b"), Some(JsonValue::Null)));
}

#[test]
fn deep_copy() {
    let v = JsonValue::Array(vec![JsonValue::String("x".to_string()), JsonValue::Object(vec![])]);
    let c = json_clone(&v);
    match c {
        JsonValue::Array(items) => {
            assert!(matches!(&items[0], JsonValue::String(s) if s == "x"));
            assert!(matches!(&items[1], JsonValue::Object(es) if es.is_empty()));
        }
        _ => panic!("not an array"),
    }
}
