use large_json_array::parse::{element_result, parse_element};
use large_json_array::JsonError;
use serde_json::{Number, Value};

#[test]
fn parse_element_gives_the_value_of_the_text() {
    let parsed = parse_element(br#"{"name":"John","tags":[1,true,null]}"#).unwrap();
    let mut expected = serde_json::Map::new();
    expected.insert("name".to_string(), Value::String("John".to_string()));
    expected.insert(
        "tags".to_string(),
        Value::Array(vec![Value::Number(Number::from(1)), Value::Bool(true), Value::Null]),
    );
    assert_eq!(parsed, Value::Object(expected));
}

#[test]
fn parse_element_decodes_the_bytes() {
    let parsed = parse_element("{\"k\":\"\u{e9}\"}".as_bytes()).unwrap();
    assert_eq!(parsed["k"], "\u{e9}");
    assert!(matches!(parse_element(b"{\"k\":\"\xff\"}"), Err(JsonError::Malformed(_))));
}

#[test]
fn parse_element_rejects_what_is_no_json() {
    for text in [&b"{bad json}"[..], b"", b"}", b"{\"a\":1", b"{\"a\":1}}", b"1]}"] {
        match parse_element(text) {
            Err(JsonError::Malformed(e)) => assert!(e.is_syntax() || e.is_eof()),
            other => panic!("accepted: {:?}", other),
        }
    }
}

#[test]
fn element_result_passes_a_value_through() {
    let outcome: Result<Value, serde_json::Error> = Ok(Value::Bool(true));
    assert_eq!(element_result(outcome).unwrap(), Value::Bool(true));
}

#[test]
fn element_result_marks_a_syntax_error_as_malformed() {
    let error = serde_json::from_str::<Value>("{").unwrap_err();
    let line = error.line();
    let column = error.column();
    match element_result(Err(error)) {
        Err(JsonError::Malformed(e)) => {
            assert_eq!(e.line(), line);
            assert_eq!(e.column(), column);
        }
        other => panic!("no syntax error: {:?}", other),
    }
}

#[test]
fn syntax_error_converts_to_malformed() {
    let error = serde_json::from_str::<Value>("[").unwrap_err();
    assert!(matches!(JsonError::from(error), JsonError::Malformed(_)));
}
