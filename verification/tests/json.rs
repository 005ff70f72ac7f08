use arb_collector::json::{
    prost_value_to_serde_json, Double, JsonMember, JsonValue, ProtoField, ProtoKind, ProtoList,
    ProtoStruct, ProtoValue,
};

fn value(kind: ProtoKind) -> ProtoValue {
    ProtoValue { kind: Some(kind) }
}

fn number(n: f64) -> ProtoValue {
    value(ProtoKind::NumberValue(Double { bits: n.to_bits() }))
}

fn text(s: &str) -> ProtoValue {
    value(ProtoKind::StringValue(s.to_string()))
}

fn list(values: Vec<ProtoValue>) -> ProtoValue {
    value(ProtoKind::ListValue(ProtoList { values }))
}

fn structure(fields: Vec<(&str, ProtoValue)>) -> ProtoValue {
    let fields = fields
        .into_iter()
        .map(|(key, value)| ProtoField { key: key.to_string(), value })
        .collect();
    value(ProtoKind::StructValue(ProtoStruct { fields }))
}

/// A compact form to compare documents by. Numbers are shown as they are held.
fn show(json: &JsonValue) -> String {
    match json {
        JsonValue::Null => "null".to_string(),
        JsonValue::Bool(b) => b.to_string(),
        JsonValue::Number(n) => format!("{:?}", f64::from_bits(n.bits)),
        JsonValue::String(s) => format!("{:?}", s),
        JsonValue::Array(items) => {
            let items: Vec<String> = items.iter().map(show).collect();
            format!("[{}]", items.join(","))
        }
        JsonValue::Object(members) => {
            let members: Vec<String> = members
                .iter()
                .map(|JsonMember { key, value }| format!("{:?}:{}", key, show(value)))
                .collect();
            format!("{{{}}}", members.join(","))
        }
    }
}

fn convert(value: ProtoValue) -> Option<String> {
    prost_value_to_serde_json(value).as_ref().map(show)
}

#[test]
fn scalars_convert() {
    assert_eq!(convert(value(ProtoKind::NullValue(0))).as_deref(), Some("null"));
    assert_eq!(convert(value(ProtoKind::NullValue(5))).as_deref(), Some("null"));
    assert_eq!(convert(value(ProtoKind::BoolValue(true))).as_deref(), Some("true"));
    assert_eq!(convert(value(ProtoKind::BoolValue(false))).as_deref(), Some("false"));
    assert_eq!(convert(text("pool")).as_deref(), Some("\"pool\""));
    assert_eq!(convert(number(2.5)).as_deref(), Some("2.5"));
    assert_eq!(convert(number(-0.0)).as_deref(), Some("-0.0"));
}

#[test]
fn value_without_a_kind_has_no_json() {
    assert_eq!(convert(ProtoValue { kind: None }), None);
}

#[test]
fn numbers_that_are_not_finite_have_no_json() {
    assert_eq!(convert(number(f64::INFINITY)), None);
    assert_eq!(convert(number(f64::NEG_INFINITY)), None);
    assert_eq!(convert(number(f64::NAN)), None);
    assert_eq!(convert(number(-f64::NAN)), None);
    assert!(convert(number(f64::MAX)).is_some());
    assert!(convert(number(f64::MIN)).is_some());
    assert!(convert(number(f64::MIN_POSITIVE)).is_some());
    assert!(convert(number(f64::from_bits(1))).is_some());
}

#[test]
fn finite_agrees_with_the_json_library() {
    let samples = [
        0.0,
        -1.5,
        1e308,
        f64::MAX,
        f64::EPSILON,
        f64::INFINITY,
        f64::NEG_INFINITY,
        f64::NAN,
    ];
    for n in samples {
        let held = Double { bits: n.to_bits() };
        assert_eq!(held.is_finite(), serde_json::Number::from_f64(n).is_some());
    }
}

#[test]
fn lists_drop_what_has_no_json() {
    let values = vec![
        number(1.0),
        ProtoValue { kind: None },
        text("b"),
        number(f64::NAN),
        value(ProtoKind::NullValue(0)),
    ];
    assert_eq!(convert(list(values)).as_deref(), Some("[1.0,\"b\",null]"));
    assert_eq!(convert(list(vec![])).as_deref(), Some("[]"));
    assert_eq!(convert(list(vec![ProtoValue { kind: None }])).as_deref(), Some("[]"));
}

#[test]
fn structs_drop_fields_that_have_no_json() {
    let fields = vec![
        ("amount", text("12")),
        ("bad", number(f64::INFINITY)),
        ("none", ProtoValue { kind: None }),
        ("pool", structure(vec![("id", text("0x1")), ("x", number(f64::NAN))])),
    ];
    assert_eq!(
        convert(structure(fields)).as_deref(),
        Some("{\"amount\":\"12\",\"pool\":{\"id\":\"0x1\"}}")
    );
    assert_eq!(convert(structure(vec![])).as_deref(), Some("{}"));
}

#[test]
fn keys_keep_their_order() {
    let fields = vec![
        ("A", number(1.0)),
        ("a", number(f64::NAN)),
        ("aa", list(vec![number(2.0), list(vec![number(f64::NAN)])])),
        ("b", value(ProtoKind::BoolValue(true))),
    ];
    assert_eq!(
        convert(structure(fields)).as_deref(),
        Some("{\"A\":1.0,\"aa\":[2.0,[]],\"b\":true}")
    );
}

#[test]
fn full_list_and_full_struct_keep_everything() {
    let values = vec![text("a"), text("b"), text("c")];
    assert_eq!(convert(list(values)).as_deref(), Some("[\"a\",\"b\",\"c\"]"));
    let fields = vec![("k", text("v")), ("l", list(vec![]))];
    assert_eq!(convert(structure(fields)).as_deref(), Some("{\"k\":\"v\",\"l\":[]}"));
}
