use cursor_analysis::json::{Json, JsonNumber};

#[test]
fn text_is_read_into_plain_values() {
    let doc = Json::parse(r#"{"b":[1,-2,2.5,"s",true,null],"a":{"k":"v"}}"#).expect("valid JSON");
    let b = doc.get("b").expect("member b").as_array().expect("an array");
    assert_eq!(b.len(), 6);
    assert!(matches!(b[0], Json::Number(JsonNumber::PosInt(1))));
    assert!(matches!(b[1], Json::Number(JsonNumber::NegInt(-2))));
    match &b[2] {
        Json::Number(JsonNumber::Float(n)) => assert_eq!(n.as_f64(), Some(2.5)),
        other => panic!("unexpected {:?}", other),
    }
    assert_eq!(b[3].as_str(), Some("s"));
    assert_eq!(b[4].as_bool(), Some(true));
    assert!(matches!(b[5], Json::Null));
    assert_eq!(doc.get("a").and_then(|a| a.text_at("k")), Some("v"));
    assert!(doc.get("missing").is_none());
    assert!(doc.get("b").expect("member b").get("k").is_none());
}

#[test]
fn text_that_is_not_json_is_refused() {
    assert!(Json::parse("").is_none());
    assert!(Json::parse("{\"a\":}").is_none());
    assert!(Json::parse("[1,2").is_none());
    assert!(Json::parse("{} trailing").is_none());
}

#[test]
fn a_document_is_written_as_json_text() {
    let doc = Json::Object(vec![
        ("name".to_string(), Json::Str("a \"b\"".to_string())),
        ("n".to_string(), Json::Number(JsonNumber::NegInt(-7))),
        ("list".to_string(), Json::Array(vec![Json::Bool(false), Json::Null])),
    ]);
    let text = doc.render();
    let back: serde_json::Value = serde_json::from_str(&text).expect("valid JSON");
    assert_eq!(back["name"], serde_json::Value::from("a \"b\""));
    assert_eq!(back["n"], serde_json::Value::from(-7));
    assert_eq!(back["list"][0], serde_json::Value::from(false));
    assert!(back["list"][1].is_null());
}

#[test]
fn reading_and_writing_keep_the_document() {
    let text = r#"{"allComposers":[{"composerId":"A","type":"head","x":1.25,"y":[1,{"z":null}]}],"other":18446744073709551615}"#;
    let doc = Json::parse(text).expect("valid JSON");
    let written = doc.render();
    let first: serde_json::Value = serde_json::from_str(text).expect("valid JSON");
    let second: serde_json::Value = serde_json::from_str(&written).expect("valid JSON");
    assert_eq!(first, second);
    assert_eq!(written, serde_json::to_string(&first).expect("can be written"));
}

#[test]
fn integers_outside_the_signed_range_are_no_i64() {
    let doc = Json::parse(r#"{"big":9223372036854775808,"max":9223372036854775807,"f":1.0}"#)
        .expect("valid JSON");
    assert_eq!(doc.i64_at("big"), None);
    assert_eq!(doc.i64_at("max"), Some(i64::MAX));
    assert_eq!(doc.i64_at("f"), None);
    assert_eq!(doc.i64_at("none"), None);
    assert!(matches!(doc.number_at("big"), Some(JsonNumber::PosInt(9223372036854775808))));
    assert!(matches!(doc.number_at("f"), Some(JsonNumber::Float(_))));
    assert!(doc.number_at("none").is_none());
}

#[test]
fn members_are_found_by_kind() {
    let doc = Json::parse(r#"{"t":"text","b":false,"a":[],"n":3}"#).expect("valid JSON");
    assert_eq!(doc.text_at("t"), Some("text"));
    assert_eq!(doc.text_at("b"), None);
    assert_eq!(doc.bool_at("b"), Some(false));
    assert_eq!(doc.bool_at("t"), None);
    assert_eq!(doc.array_at("a").map(|a| a.len()), Some(0));
    assert!(doc.array_at("n").is_none());
    assert_eq!(doc.text_or("t", "d"), "text");
    assert_eq!(doc.text_or("n", "d"), "d");
    assert_eq!(doc.text_or("zz", "d"), "d");
}

#[test]
fn a_number_is_copied_as_it_is() {
    let doc = Json::parse(r#"{"f":0.1}"#).expect("valid JSON");
    let n = doc.number_at("f").expect("a number");
    let copy = n.duplicate();
    match (n, copy) {
        (JsonNumber::Float(a), JsonNumber::Float(b)) => {
            assert_eq!(a, b);
            assert_eq!(b.as_f64(), Some(0.1));
        }
        other => panic!("unexpected {:?}", other),
    }
    assert_eq!(JsonNumber::PosInt(5).as_i64(), Some(5));
    assert_eq!(JsonNumber::PosInt(u64::MAX).as_i64(), None);
    assert_eq!(JsonNumber::NegInt(-5).as_i64(), Some(-5));
}
