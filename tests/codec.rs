use driver_protocol::codec::{
    convert_kv, decode, serialize_bytes, serialize_newtype_variant, serialize_none, serialize_str,
    serialize_u64, serialize_unit, serialize_unit_variant, struct_kind, to_value, Encoded, ObjectM,
    ObjectS, SeqBuilder, Serializer, StructKind, StructVariant, TupleVariant, DATE_STRUCT,
    HANDLE_STRUCT,
};
use driver_protocol::codec::{encoded_to_json, wire_from_json, wire_to_json};
use driver_protocol::error::Error;
use driver_protocol::json::{Json, Member};
use driver_protocol::native::{Native, NativeField};
use driver_protocol::registry::{Registry, ROOT_GUID};
use driver_protocol::wire::{special_from_marker, special_marker, Special, WireEntry, WireValue};
use serde_json::Value;

fn tagged(tag: &str, v: Value) -> Value {
    let mut m = serde_json::Map::new();
    m.insert(tag.to_string(), v);
    Value::Object(m)
}

fn to_json(w: &WireValue) -> Value {
    match w {
        WireValue::Bool(b) => tagged("b", Value::from(*b)),
        WireValue::Int(n) => tagged("n", Value::from(*n)),
        WireValue::UInt(n) => tagged("n", Value::from(*n)),
        WireValue::Decimal(d) => tagged("n", serde_json::from_str(d).unwrap()),
        WireValue::Special(s) => tagged("v", Value::from(special_marker(*s))),
        WireValue::Str(s) => tagged("s", Value::from(s.clone())),
        WireValue::Date(s) => tagged("d", Value::from(s.clone())),
        WireValue::Handle(i) => tagged("h", Value::from(*i)),
        WireValue::Array(a) => tagged("a", Value::Array(a.iter().map(to_json).collect())),
        WireValue::Object(es) => tagged(
            "o",
            Value::Array(
                es.iter()
                    .map(|e| {
                        let mut m = serde_json::Map::new();
                        m.insert("k".to_string(), Value::from(e.key.clone()));
                        m.insert("v".to_string(), to_json(&e.value));
                        Value::Object(m)
                    })
                    .collect(),
            ),
        ),
    }
}

fn message(value: &WireValue, handles: &[String]) -> Value {
    let mut m = serde_json::Map::new();
    m.insert("value".to_string(), to_json(value));
    m.insert(
        "handles".to_string(),
        Value::Array(handles.iter().map(|g| tagged("guid", Value::from(g.clone()))).collect()),
    );
    Value::Object(m)
}

fn encoded_json(e: &Encoded) -> Value {
    message(&e.value, &e.handles)
}

fn parse(s: &str) -> Value {
    serde_json::from_str(s).unwrap()
}

#[test]
fn struct_() {
    // struct Test { int: u32, seq: Vec<&str> } with int = 1, seq = ["a", "b"]
    let mut ser = Serializer::new();
    let mut o = ObjectS::new("Test");
    o.serialize_field("int", serialize_u64(1)).unwrap();
    let mut s = SeqBuilder::new();
    s.serialize_element(serialize_str("a"));
    s.serialize_element(serialize_str("b"));
    o.serialize_field("seq", s.end()).unwrap();
    let v = o.end(&mut ser).unwrap();
    let expected = r#"{
                "value":{"o":[{"k":"int","v":{"n":1}},{"k":"seq","v":{"a": [{"s":"a"},{"s":"b"}]}}]},
                "handles":[]}"#;
    assert_eq!(message(&v, &ser.handles()), parse(expected));
}

#[test]
fn option() {
    let expected = r#"{
            "value":{"n":3},
            "handles": []}"#;
    let some = to_value(&Native::Int(3)).unwrap();
    assert_eq!(encoded_json(&some), parse(expected));
    let expected = r#"{
            "value":{"v":"null"},
            "handles": []}"#;
    let none = Encoded { value: serialize_none(), handles: Vec::new() };
    assert_eq!(encoded_json(&none), parse(expected));
}

#[test]
fn enum_() {
    let u = serialize_unit_variant("Unit");
    let expected = r#"{"value":{"s":"Unit"}, "handles":[]}"#;
    assert_eq!(message(&u, &[]), parse(expected));

    let u = serialize_newtype_variant("Newtype", serialize_u64(1));
    let expected = r#"{"value":{"o":[{"k":"Newtype","v":{"n":1}}]}, "handles":[]}"#;
    assert_eq!(message(&u, &[]), parse(expected));

    let mut t = TupleVariant::new("Tuple");
    t.serialize_field(serialize_u64(1));
    t.serialize_field(serialize_u64(2));
    let u = t.end();
    let expected = r#"{"value": {"o":[{"k":"Tuple","v":{"a":[{"n":1},{"n":2}]}}]}, "handles":[]}"#;
    assert_eq!(message(&u, &[]), parse(expected));

    let mut s = StructVariant::new("Struct");
    s.serialize_field("a", serialize_u64(1));
    let u = s.end();
    let expected = r#"{"value":{"o":[{"k":"Struct","v":{"o":[{"k":"a","v":{"n":1}}]}}]},"handles":[]}"#;
    assert_eq!(message(&u, &[]), parse(expected));
}

#[test]
fn object_reference_goes_to_handle_list() {
    let v = Native::Object(vec![NativeField {
        key: "target".to_string(),
        value: Native::ObjectRef("g1".to_string()),
    }]);
    let e = to_value(&v).unwrap();
    let expected = r#"{"value":{"o":[{"k":"target","v":{"h":0}}]},"handles":[{"guid":"g1"}]}"#;
    assert_eq!(encoded_json(&e), parse(expected));
}

#[test]
fn handle_struct_is_diverted() {
    let mut ser = Serializer::new();
    let mut outer = ObjectS::new("Outer");
    let mut h = ObjectS::new(HANDLE_STRUCT);
    h.serialize_field("guid", serialize_str("g1")).unwrap();
    outer.serialize_field("target", h.end(&mut ser).unwrap()).unwrap();
    let v = outer.end(&mut ser).unwrap();
    let expected = r#"{"value":{"o":[{"k":"target","v":{"h":0}}]},"handles":[{"guid":"g1"}]}"#;
    assert_eq!(message(&v, &ser.handles()), parse(expected));
}

#[test]
fn handle_indices_follow_order() {
    let v = Native::List(vec![
        Native::ObjectRef("a".to_string()),
        Native::Int(-5),
        Native::ObjectRef("b".to_string()),
    ]);
    let e = to_value(&v).unwrap();
    let expected =
        r#"{"value":{"a":[{"h":0},{"n":-5},{"h":1}]},"handles":[{"guid":"a"},{"guid":"b"}]}"#;
    assert_eq!(encoded_json(&e), parse(expected));
}

#[test]
fn date_struct_is_a_date_payload() {
    let mut ser = Serializer::new();
    let mut d = ObjectS::new(DATE_STRUCT);
    d.serialize_field("d", serialize_str("2021-01-01T00:00:00Z")).unwrap();
    let v = d.end(&mut ser).unwrap();
    assert_eq!(message(&v, &ser.handles()), parse(r#"{"value":{"d":"2021-01-01T00:00:00Z"},"handles":[]}"#));
}

#[test]
fn struct_kinds_by_name() {
    assert_eq!(struct_kind(HANDLE_STRUCT), StructKind::Handle);
    assert_eq!(struct_kind("fff9ae7f-9070-480f-9a8a-3d4b66923f7d"), StructKind::Handle);
    assert_eq!(struct_kind(DATE_STRUCT), StructKind::Date);
    assert_eq!(struct_kind("Point"), StructKind::Plain);
}

#[test]
fn handle_without_guid_fails() {
    let mut ser = Serializer::new();
    let h = ObjectS::new(HANDLE_STRUCT);
    assert!(matches!(h.end(&mut ser), Err(Error::JsHandle)));
    let mut h = ObjectS::new(HANDLE_STRUCT);
    assert!(matches!(h.serialize_field("guid", serialize_u64(3)), Err(Error::JsHandle)));
    assert!(ser.handles().is_empty());
}

#[test]
fn date_without_payload_fails() {
    let mut ser = Serializer::new();
    let d = ObjectS::new(DATE_STRUCT);
    assert!(matches!(d.end(&mut ser), Err(Error::DateTime)));
    let mut d = ObjectS::new(DATE_STRUCT);
    assert!(matches!(d.serialize_field("d", serialize_u64(3)), Err(Error::DateTime)));
}

#[test]
fn bytes_are_not_supported() {
    assert!(matches!(serialize_bytes(&[1, 2]), Err(Error::NotSupported)));
    let v = Native::List(vec![Native::Int(1), Native::Bytes(vec![0])]);
    assert!(matches!(to_value(&v), Err(Error::NotSupported)));
}

#[test]
fn map_pairs_in_order() {
    let mut m = ObjectM::new();
    m.serialize_key(serialize_str("x")).unwrap();
    m.serialize_value(serialize_u64(1)).unwrap();
    m.serialize_key(serialize_str("y")).unwrap();
    m.serialize_value(serialize_unit()).unwrap();
    let v = m.end().unwrap();
    assert_eq!(
        message(&v, &[]),
        parse(r#"{"value":{"o":[{"k":"x","v":{"n":1}},{"k":"y","v":{"v":"undefined"}}]},"handles":[]}"#)
    );
}

#[test]
fn map_with_trailing_key_fails() {
    let mut m = ObjectM::new();
    m.serialize_key(serialize_str("x")).unwrap();
    assert!(matches!(m.serialize_key(serialize_str("y")), Err(Error::OddMap)));
    assert!(matches!(m.end(), Err(Error::OddMap)));
    let mut m = ObjectM::new();
    assert!(matches!(m.serialize_value(serialize_u64(1)), Err(Error::OddMap)));
}

#[test]
fn map_key_must_be_string() {
    let mut m = ObjectM::new();
    assert!(matches!(m.serialize_key(serialize_u64(1)), Err(Error::InvalidKey)));
}

#[test]
fn convert_kv_zips_in_order() {
    let v = convert_kv(
        vec!["a".to_string(), "b".to_string()],
        vec![serialize_u64(1), serialize_str("two")],
    );
    assert_eq!(
        message(&v, &[]),
        parse(r#"{"value":{"o":[{"k":"a","v":{"n":1}},{"k":"b","v":{"s":"two"}}]},"handles":[]}"#)
    );
}

#[test]
fn special_values_have_distinct_markers() {
    let all = [
        Special::Null,
        Special::Undefined,
        Special::NaN,
        Special::Infinity,
        Special::NegInfinity,
        Special::NegZero,
    ];
    let names = ["null", "undefined", "NaN", "Infinity", "-Infinity", "-0"];
    for (s, n) in all.iter().zip(names.iter()) {
        assert_eq!(special_marker(*s), *n);
        assert_eq!(special_from_marker(n), Some(*s));
    }
    assert_eq!(special_from_marker("nan"), None);
}

#[test]
fn round_trip_keeps_every_state() {
    let mut reg = Registry::new();
    reg.create(ROOT_GUID, "Dummy".to_string(), "g1".to_string(), Json::Object(Vec::new())).unwrap();
    let v = Native::Object(vec![
        NativeField { key: "nan".to_string(), value: Native::Special(Special::NaN) },
        NativeField { key: "inf".to_string(), value: Native::Special(Special::Infinity) },
        NativeField { key: "ninf".to_string(), value: Native::Special(Special::NegInfinity) },
        NativeField { key: "nz".to_string(), value: Native::Special(Special::NegZero) },
        NativeField { key: "null".to_string(), value: Native::Special(Special::Null) },
        NativeField { key: "undef".to_string(), value: Native::Special(Special::Undefined) },
        NativeField {
            key: "list".to_string(),
            value: Native::List(vec![
                Native::Bool(true),
                Native::UInt(u64::MAX),
                Native::Int(i64::MIN),
                Native::Str("s".to_string()),
                Native::Date("2020-02-02".to_string()),
                Native::ObjectRef("g1".to_string()),
            ]),
        },
        NativeField { key: "nan".to_string(), value: Native::Int(0) },
    ]);
    let e = to_value(&v).unwrap();
    assert_eq!(e.handles, vec!["g1".to_string()]);
    let back = decode(&e.value, &e.handles, &reg).unwrap();
    assert_eq!(format!("{:?}", back), format!("{:?}", v));
}

#[test]
fn decode_of_disposed_handle_fails() {
    let mut reg = Registry::new();
    reg.create(ROOT_GUID, "Dummy".to_string(), "g1".to_string(), Json::Object(Vec::new())).unwrap();
    let w = WireValue::Array(vec![WireValue::Handle(0)]);
    let hs = vec!["g1".to_string()];
    assert!(matches!(decode(&w, &hs, &reg), Ok(Native::List(_))));
    reg.dispose("g1");
    assert!(matches!(decode(&w, &hs, &reg), Err(Error::ObjectNotFound)));
}

#[test]
fn decode_of_handle_past_list_is_malformed() {
    let reg = Registry::new();
    let w = WireValue::Object(vec![WireEntry { key: "x".to_string(), value: WireValue::Handle(1) }]);
    assert!(matches!(decode(&w, &vec!["g".to_string()], &reg), Err(Error::Malformed)));
}

#[test]
fn decimal_numbers_pass_through() {
    let reg = Registry::new();
    let v = Native::List(vec![Native::Decimal("1.5".to_string()), Native::Special(Special::NegZero)]);
    let e = to_value(&v).unwrap();
    assert_eq!(encoded_json(&e), parse(r#"{"value":{"a":[{"n":1.5},{"v":"-0"}]},"handles":[]}"#));
    let back = decode(&e.value, &e.handles, &reg).unwrap();
    assert_eq!(format!("{:?}", back), format!("{:?}", v));
}

fn tree_to_json(j: &Json) -> Value {
    match j {
        Json::Null => Value::Null,
        Json::Bool(b) => Value::Bool(*b),
        Json::Int(i) => Value::from(*i),
        Json::UInt(u) => Value::from(*u),
        Json::Number(t) => serde_json::from_str(t).unwrap(),
        Json::Str(s) => Value::String(s.clone()),
        Json::Array(a) => Value::Array(a.iter().map(tree_to_json).collect()),
        Json::Object(ms) => {
            let mut m = serde_json::Map::new();
            for x in ms {
                m.insert(x.key.clone(), tree_to_json(&x.value));
            }
            Value::Object(m)
        }
    }
}

fn str_member(k: &str, v: Json) -> Member {
    Member { key: k.to_string(), value: v }
}

#[test]
fn tagged_json_form() {
    let w = WireValue::Object(vec![
        WireEntry { key: "x".to_string(), value: WireValue::Special(Special::NegInfinity) },
        WireEntry { key: "y".to_string(), value: WireValue::Array(vec![WireValue::Handle(2), WireValue::Bool(false)]) },
        WireEntry { key: "z".to_string(), value: WireValue::Date("2020".to_string()) },
    ]);
    let j = wire_to_json(&w);
    assert_eq!(
        tree_to_json(&j),
        parse(r#"{"o":[{"k":"x","v":{"v":"-Infinity"}},{"k":"y","v":{"a":[{"h":2},{"b":false}]}},{"k":"z","v":{"d":"2020"}}]}"#)
    );
    let back = wire_from_json(&j).unwrap();
    assert_eq!(format!("{:?}", back), format!("{:?}", w));
}

#[test]
fn entry_without_value_is_malformed() {
    let entry = Json::Object(vec![str_member("k", Json::Str("a".to_string()))]);
    let j = Json::Object(vec![str_member("o", Json::Array(vec![entry]))]);
    assert!(matches!(wire_from_json(&j), Err(Error::Malformed)));
}

#[test]
fn unknown_tag_or_marker_is_malformed() {
    let j = Json::Object(vec![str_member("q", Json::Int(1))]);
    assert!(matches!(wire_from_json(&j), Err(Error::Malformed)));
    let j = Json::Object(vec![str_member("v", Json::Str("nan".to_string()))]);
    assert!(matches!(wire_from_json(&j), Err(Error::Malformed)));
    let j = Json::Object(vec![str_member("n", Json::Str("1".to_string()))]);
    assert!(matches!(wire_from_json(&j), Err(Error::Malformed)));
    let j = Json::Object(vec![str_member("b", Json::Bool(true)), str_member("n", Json::Int(1))]);
    assert!(matches!(wire_from_json(&j), Err(Error::Malformed)));
}

#[test]
fn numbers_read_back() {
    let j = Json::Object(vec![str_member("n", Json::Number("2.5".to_string()))]);
    assert!(matches!(wire_from_json(&j), Ok(WireValue::Decimal(ref d)) if d == "2.5"));
    let j = Json::Object(vec![str_member("n", Json::Int(-3))]);
    assert!(matches!(wire_from_json(&j), Ok(WireValue::Int(-3))));
}

#[test]
fn encoded_message_json() {
    let v = Native::List(vec![Native::ObjectRef("g1".to_string()), Native::Str("x".to_string())]);
    let e = to_value(&v).unwrap();
    let j = encoded_to_json(&e);
    assert_eq!(
        tree_to_json(&j),
        parse(r#"{"value":{"a":[{"h":0},{"s":"x"}]},"handles":[{"guid":"g1"}]}"#)
    );
}
