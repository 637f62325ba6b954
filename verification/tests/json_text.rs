use ha_tui::json::Json;
use ha_tui::protocol::{ErrorCode, HaError, WSResult};
use serde_json::{Number, Value};

/// The same value, as serde_json holds it and as the library holds it.
fn pair() -> (Value, Json) {
    let mut m = serde_json::Map::new();
    m.insert("a \"q\"".to_string(), Value::Array(vec![
        Value::Number(Number::from(1u64)),
        Value::Number(Number::from(-2i64)),
        Value::Number(Number::from_f64(1.5).unwrap()),
        Value::String("x\ny".to_string()),
        Value::Bool(true),
        Value::Null,
    ]));
    m.insert("b".to_string(), Value::Object(serde_json::Map::new()));
    m.insert("c".to_string(), Value::Array(vec![]));
    let v = Value::Object(m);
    let j = Json::Object(vec![
        (
            "a \"q\"".to_string(),
            Json::Array(vec![
                Json::UInt(1),
                Json::Number("-2".to_string()),
                Json::Float("1.5".to_string()),
                Json::Str("x\ny".to_string()),
                Json::Bool(true),
                Json::Null,
            ]),
        ),
        ("b".to_string(), Json::Object(vec![])),
        ("c".to_string(), Json::Array(vec![])),
    ]);
    (v, j)
}

#[test]
fn json_debug_text_is_serde_json_debug_text() {
    let (v, j) = pair();
    assert_eq!(j.debug_text(), format!("{:?}", v));
}

#[test]
fn result_debug_text_holds_the_value() {
    let (v, j) = pair();
    let r = WSResult {
        id: 12,
        success: false,
        result: Some(j),
        error: Some(ErrorCode { code: "c".to_string(), message: "m".to_string() }),
    };
    assert_eq!(
        r.debug_text(),
        format!("WSResult {{ id: 12, success: false, result: Some({:?}), error: Some(ErrorCode {{ code: \"c\", message: \"m\" }}) }}", v)
    );
}

/// A float as the library holds it: by serde_json's text of the number.
fn float(f: f64) -> Json {
    Json::Float(Number::from_f64(f).unwrap().to_string())
}

fn serde_error(v: Value) -> String {
    serde_json::from_value::<Vec<String>>(v).unwrap_err().to_string()
}

#[test]
fn services_error_is_serde_error() {
    let cases: Vec<(Value, Json)> = vec![
        (Value::Null, Json::Null),
        (Value::Bool(false), Json::Bool(false)),
        (Value::Number(Number::from(7u64)), Json::UInt(7)),
        (Value::Number(Number::from(-7i64)), Json::Number("-7".to_string())),
        (Value::Number(Number::from_f64(2.0).unwrap()), float(2.0)),
        (Value::Number(Number::from_f64(1e20).unwrap()), float(1e20)),
        (Value::String("s\"".to_string()), Json::Str("s\"".to_string())),
        (Value::Object(serde_json::Map::new()), Json::Object(vec![])),
        (
            Value::Array(vec![Value::String("ok".to_string()), Value::Array(vec![])]),
            Json::Array(vec![Json::Str("ok".to_string()), Json::Array(vec![])]),
        ),
        (
            Value::Array(vec![Value::Number(Number::from_f64(0.25).unwrap())]),
            Json::Array(vec![float(0.25)]),
        ),
        (
            Value::Array(vec![Value::String("a".to_string()), Value::Null]),
            Json::Array(vec![Json::Str("a".to_string()), Json::Null]),
        ),
        (
            Value::Array(vec![Value::Number(Number::from_f64(1e-7).unwrap())]),
            Json::Array(vec![float(1e-7)]),
        ),
    ];
    for (v, j) in cases {
        assert_eq!(HaError::InvalidServices(j).message(), serde_error(v));
    }
}

#[test]
fn services_error_names_null_and_float_as_serde_json_does() {
    let null_item = Json::Array(vec![Json::Null]);
    assert_eq!(HaError::InvalidServices(null_item).message(), "invalid type: null, expected a string");
    assert_eq!(serde_error(Value::Array(vec![Value::Null])), "invalid type: null, expected a string");
    let small = Value::Number(Number::from_f64(1e-7).unwrap());
    assert_eq!(serde_error(Value::Array(vec![small])), "invalid type: floating point `1e-7`, expected a string");
    assert_eq!(
        HaError::InvalidServices(Json::Array(vec![float(1e-7)])).message(),
        "invalid type: floating point `1e-7`, expected a string"
    );
}
