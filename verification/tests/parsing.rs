use cryptocompare::{
    parse_json_to_float, parse_json_to_vector, Error, JsonNumber, JsonValue,
};

fn num_f(x: f64) -> JsonValue {
    JsonValue::Number(JsonNumber::FloatBits(x.to_bits()))
}

fn num_u(x: u64) -> JsonValue {
    JsonValue::Number(JsonNumber::UInt(x))
}

fn obj(pairs: Vec<(&str, JsonValue)>) -> JsonValue {
    JsonValue::Object(pairs.into_iter().map(|(k, v)| (k.to_string(), v)).collect())
}

/// A well-shaped OHLCV element, with recognizable values derived from `t`.
fn good_record(t: i64) -> JsonValue {
    obj(vec![
        ("time", JsonValue::Number(JsonNumber::Int(t))),
        ("close", num_f(1.5 + t as f64)),
        ("high", num_f(2.5 + t as f64)),
        ("low", num_f(0.5 + t as f64)),
        ("open", num_f(1.0 + t as f64)),
        ("volumefrom", num_f(10.0)),
        ("volumeto", num_f(20.0)),
    ])
}

fn histo_response(n: i64) -> JsonValue {
    let records: Vec<JsonValue> = (0..n).map(good_record).collect();
    obj(vec![("Data", JsonValue::Array(records))])
}

/// Mirror of the transport layer: deserialize JSON text and hand the
/// library's own value shape to the extraction functions.
fn convert(v: serde_json::Value) -> JsonValue {
    match v {
        serde_json::Value::Null => JsonValue::Null,
        serde_json::Value::Bool(b) => JsonValue::Bool(b),
        serde_json::Value::Number(n) => JsonValue::Number(if let Some(u) = n.as_u64() {
            JsonNumber::UInt(u)
        } else if let Some(i) = n.as_i64() {
            JsonNumber::Int(i)
        } else {
            JsonNumber::FloatBits(n.as_f64().expect("numeric").to_bits())
        }),
        serde_json::Value::String(s) => JsonValue::Text(s),
        serde_json::Value::Array(a) => JsonValue::Array(a.into_iter().map(convert).collect()),
        serde_json::Value::Object(m) => {
            JsonValue::Object(m.into_iter().map(|(k, x)| (k, convert(x))).collect())
        }
    }
}

fn parse_payload(text: &str) -> Result<JsonValue, Error> {
    match serde_json::from_str::<serde_json::Value>(text) {
        Ok(v) => Ok(convert(v)),
        Err(e) => Err(Error::Parse { message: e.to_string() }),
    }
}

#[test]
fn test_parse_json_to_vector() {
    let limit: u64 = 3;
    let result = histo_response(limit as i64 + 1);
    let vector = parse_json_to_vector(result).unwrap();
    assert_eq!(vector.len(), (limit + 1) as usize)
}

#[test]
fn test_parse_json_to_float() {
    let result = obj(vec![("ETH", num_f(0.004))]);
    let price = parse_json_to_float(result, "ETH");
    assert_eq!(price.is_err(), false);
}

#[test]
fn records_come_back_in_array_order_with_exact_values() {
    let vector = parse_json_to_vector(histo_response(3)).unwrap();
    assert_eq!(vector.len(), 3);
    for (i, d) in vector.iter().enumerate() {
        let t = i as i64;
        assert_eq!(d.time, t);
        assert_eq!(d.close, JsonNumber::FloatBits((1.5 + t as f64).to_bits()));
        assert_eq!(d.high, JsonNumber::FloatBits((2.5 + t as f64).to_bits()));
        assert_eq!(d.low, JsonNumber::FloatBits((0.5 + t as f64).to_bits()));
        assert_eq!(d.open, JsonNumber::FloatBits((1.0 + t as f64).to_bits()));
        assert_eq!(d.volumefrom, JsonNumber::FloatBits(10.0f64.to_bits()));
        assert_eq!(d.volumeto, JsonNumber::FloatBits(20.0f64.to_bits()));
    }
}

#[test]
fn empty_data_array_gives_an_empty_vector() {
    let vector = parse_json_to_vector(obj(vec![("Data", JsonValue::Array(Vec::new()))])).unwrap();
    assert_eq!(vector.len(), 0);
}

#[test]
fn one_dropped_field_fails_the_whole_extraction() {
    let mut records: Vec<JsonValue> = (0..4).map(good_record).collect();
    // Rebuild the third record without its `low` field.
    records[2] = obj(vec![
        ("time", JsonValue::Number(JsonNumber::Int(2))),
        ("close", num_f(3.5)),
        ("high", num_f(4.5)),
        ("open", num_f(3.0)),
        ("volumefrom", num_f(10.0)),
        ("volumeto", num_f(20.0)),
    ]);
    let r = parse_json_to_vector(obj(vec![("Data", JsonValue::Array(records))]));
    match r {
        Err(Error::Shape { key }) => assert_eq!(key, "low"),
        _ => panic!("a truncated extraction came back"),
    }
}

#[test]
fn one_mistyped_field_fails_the_whole_extraction() {
    let mut records: Vec<JsonValue> = (0..2).map(good_record).collect();
    records[0] = obj(vec![
        ("time", JsonValue::Number(JsonNumber::Int(0))),
        ("close", JsonValue::Text("1.5".to_string())),
        ("high", num_f(2.5)),
        ("low", num_f(0.5)),
        ("open", num_f(1.0)),
        ("volumefrom", num_f(10.0)),
        ("volumeto", num_f(20.0)),
    ]);
    let r = parse_json_to_vector(obj(vec![("Data", JsonValue::Array(records))]));
    match r {
        Err(Error::Shape { key }) => assert_eq!(key, "close"),
        _ => panic!("a mistyped field was accepted"),
    }
}

#[test]
fn fractional_time_fails_with_the_time_key() {
    let record = obj(vec![
        ("time", num_f(1.5)),
        ("close", num_f(1.5)),
        ("high", num_f(2.5)),
        ("low", num_f(0.5)),
        ("open", num_f(1.0)),
        ("volumefrom", num_f(10.0)),
        ("volumeto", num_f(20.0)),
    ]);
    let r = parse_json_to_vector(obj(vec![("Data", JsonValue::Array(vec![record]))]));
    match r {
        Err(Error::Shape { key }) => assert_eq!(key, "time"),
        _ => panic!("a fractional time was accepted"),
    }
}

#[test]
fn oversized_time_fails_with_the_time_key() {
    let record = obj(vec![
        ("time", num_u(u64::MAX)),
        ("close", num_f(1.5)),
        ("high", num_f(2.5)),
        ("low", num_f(0.5)),
        ("open", num_f(1.0)),
        ("volumefrom", num_f(10.0)),
        ("volumeto", num_f(20.0)),
    ]);
    let r = parse_json_to_vector(obj(vec![("Data", JsonValue::Array(vec![record]))]));
    match r {
        Err(Error::Shape { key }) => assert_eq!(key, "time"),
        _ => panic!("an out-of-range time was accepted"),
    }
}

#[test]
fn integer_prices_are_accepted() {
    let record = obj(vec![
        ("time", num_u(7)),
        ("close", num_u(2)),
        ("high", JsonValue::Number(JsonNumber::Int(-1))),
        ("low", num_f(0.5)),
        ("open", num_f(1.0)),
        ("volumefrom", num_f(10.0)),
        ("volumeto", num_f(20.0)),
    ]);
    let vector =
        parse_json_to_vector(obj(vec![("Data", JsonValue::Array(vec![record]))])).unwrap();
    assert_eq!(vector[0].time, 7);
    assert_eq!(vector[0].close, JsonNumber::UInt(2));
    assert_eq!(vector[0].high, JsonNumber::Int(-1));
}

#[test]
fn missing_data_key_fails() {
    let r = parse_json_to_vector(obj(vec![("Other", JsonValue::Null)]));
    match r {
        Err(Error::Shape { key }) => assert_eq!(key, "Data"),
        _ => panic!("a response without Data was accepted"),
    }
}

#[test]
fn non_array_data_fails() {
    let r = parse_json_to_vector(obj(vec![("Data", JsonValue::Bool(true))]));
    match r {
        Err(Error::Shape { key }) => assert_eq!(key, "Data"),
        _ => panic!("a non-array Data was accepted"),
    }
}

#[test]
fn non_object_response_fails() {
    let r = parse_json_to_vector(JsonValue::Array(Vec::new()));
    match r {
        Err(Error::Shape { key }) => assert_eq!(key, "Data"),
        _ => panic!("a non-object response was accepted"),
    }
}

#[test]
fn non_object_array_element_fails() {
    let r = parse_json_to_vector(obj(vec![("Data", JsonValue::Array(vec![JsonValue::Null]))]));
    assert!(matches!(r, Err(Error::Shape { .. })));
}

#[test]
fn duplicate_keys_read_the_first_occurrence() {
    let record = obj(vec![
        ("time", num_u(1)),
        ("close", num_f(9.0)),
        ("close", JsonValue::Text("ignored".to_string())),
        ("high", num_f(2.5)),
        ("low", num_f(0.5)),
        ("open", num_f(1.0)),
        ("volumefrom", num_f(10.0)),
        ("volumeto", num_f(20.0)),
    ]);
    let vector =
        parse_json_to_vector(obj(vec![("Data", JsonValue::Array(vec![record]))])).unwrap();
    assert_eq!(vector[0].close, JsonNumber::FloatBits(9.0f64.to_bits()));
}

#[test]
fn price_is_returned_verbatim() {
    let price = parse_json_to_float(obj(vec![("ETH", num_f(0.0321))]), "ETH").unwrap();
    assert_eq!(price, JsonNumber::FloatBits(0.0321f64.to_bits()));
    assert_eq!(f64::from_bits(match price {
        JsonNumber::FloatBits(b) => b,
        _ => panic!("not a float"),
    }), 0.0321);
}

#[test]
fn price_under_another_symbol_fails() {
    let r = parse_json_to_float(obj(vec![("ETH", num_f(0.0321))]), "BTC");
    match r {
        Err(Error::Shape { key }) => assert_eq!(key, "BTC"),
        _ => panic!("a missing symbol was accepted"),
    }
}

#[test]
fn non_numeric_price_fails() {
    let r = parse_json_to_float(obj(vec![("ETH", JsonValue::Text("dear".to_string()))]), "ETH");
    assert!(matches!(r, Err(Error::Shape { .. })));
}

#[test]
fn non_object_price_response_fails() {
    let r = parse_json_to_float(JsonValue::Null, "ETH");
    assert!(matches!(r, Err(Error::Shape { .. })));
}

#[test]
fn malformed_json_text_is_a_parse_error() {
    let r = parse_payload("{\"Data\": [");
    assert!(matches!(r, Err(Error::Parse { .. })));
}

#[test]
fn well_formed_text_of_the_wrong_shape_is_a_shape_error() {
    let v = parse_payload("{\"Response\": \"Error\"}").unwrap();
    let r = parse_json_to_vector(v);
    assert!(matches!(r, Err(Error::Shape { .. })));
}

#[test]
fn deserialized_text_extracts_end_to_end() {
    let text = "{\"Data\": [{\"time\": 1700000000, \"open\": 1.0, \"high\": 2.5, \"low\": 0.5, \
                \"close\": 1.5, \"volumefrom\": 10.0, \"volumeto\": 20.0}]}";
    let v = parse_payload(text).unwrap();
    let vector = parse_json_to_vector(v).unwrap();
    assert_eq!(vector.len(), 1);
    assert_eq!(vector[0].time, 1700000000);
    assert_eq!(vector[0].close, JsonNumber::FloatBits(1.5f64.to_bits()));
}
