use ue_serial_port::buffer::RingBuffer;
use ue_serial_port::error::ErrorCode;
use ue_serial_port::json::{
    find_braces, find_json_object, parse_sensor_json, sensor_readings_from_value,
    take_sensor_readings, JsonParser,
};

#[test]
fn test_json_parser_basic() {
    let parser = JsonParser::new(2);
    let json = r#"{"Sx1":"1.0","Sy1":"2.0","Sc1":"3.0","Sx2":"4.0","Sy2":"5.0","Sc2":"6.0"}"#;

    let result = parser.parse(json);
    assert!(result.is_ok());

    let data = result.unwrap();
    assert_eq!(data.len(), 2);
}

#[test]
fn test_json_parser_invalid() {
    let parser = JsonParser::new(0);
    let json = r#"{"invalid": "data"}"#;

    let result = parser.parse(json);
    assert!(result.is_err());
}

#[test]
fn test_json_parser_point_count_mismatch() {
    let parser = JsonParser::new(5);
    let json = r#"{"Sx1":"1.0","Sy1":"2.0","Sc1":"3.0"}"#;

    let result = parser.parse(json);
    assert!(result.is_err());
}

#[test]
fn test_find_json_object() {
    let buffer = b"garbage{\"key\":\"value\"}more";
    let result = find_json_object(buffer);

    // `{` is byte 7 and `}` byte 21: the object is bytes 7 up to 22.
    assert_eq!(result, Some((7, 22)));
    assert_eq!(&buffer[7..22], b"{\"key\":\"value\"}");
}

#[test]
fn test_extract_value() {
    let parser = JsonParser::new(0);
    let json = r#"{"Sx1":"123.45","Sy1":"678.90"}"#;

    let value = parser.extract_value(json.as_bytes(), "\"Sx1\":".as_bytes());
    assert_eq!(value, Some("123.45".as_bytes()));
}

#[test]
fn parse_keeps_coordinate_texts() {
    let parser = JsonParser::new(0);
    let json = r#"{"Sx1":"1.5","Sy1":"-2","Sc1":"0.8","Sx2":"4","Sy2":"5","Sc2":"6","Sx4":"9"}"#;
    let points = parser.parse(json).unwrap();
    assert_eq!(points.len(), 2);
    assert_eq!(points[0].x, b"1.5".to_vec());
    assert_eq!(points[0].y, b"-2".to_vec());
    assert_eq!(points[0].c, b"0.8".to_vec());
    assert_eq!(points[1].c, b"6".to_vec());
}

#[test]
fn parse_unquoted_values_are_trimmed() {
    let parser = JsonParser::new(1);
    let json = "{\"Sx1\": 12 ,\"Sy1\":\u{a0}3\u{3000}, \"Sc1\":7}";
    let points = parser.parse(json).unwrap();
    assert_eq!(points[0].x, b"12".to_vec());
    assert_eq!(points[0].y, b"3".to_vec());
    assert_eq!(points[0].c, b"7".to_vec());
}

#[test]
fn parse_requires_braces() {
    let parser = JsonParser::new(0);
    assert_eq!(parser.parse("").err(), Some(ErrorCode::JsonParseFailed));
    assert_eq!(
        parser.parse(r#""Sx1":"1","Sy1":"2","Sc1":"3"}"#).err(),
        Some(ErrorCode::JsonParseFailed)
    );
    assert_eq!(
        parser.parse(r#"{"Sx1":"1","Sy1":"2","Sc1":"3""#).err(),
        Some(ErrorCode::JsonParseFailed)
    );
}

#[test]
fn parse_caps_at_a_thousand_points() {
    let mut json = String::from("{");
    for i in 1..=1002 {
        if i > 1 {
            json.push(',');
        }
        json.push_str(&format!("\"Sx{}\":\"1\",\"Sy{}\":\"2\",\"Sc{}\":\"3\"", i, i, i));
    }
    json.push('}');
    let points = JsonParser::new(0).parse(&json).unwrap();
    assert_eq!(points.len(), 1000);
    assert!(JsonParser::new(1002).parse(&json).is_err());
}

#[test]
fn extract_value_edge_cases() {
    let parser = JsonParser::new(0);
    assert_eq!(parser.extract_value(b"{\"a\":\"x", b"\"a\":"), None);
    assert_eq!(parser.extract_value(b"{\"b\":1}", b"\"a\":"), None);
    assert_eq!(parser.extract_value(b"{\"a\":", b"\"a\":"), Some(&b""[..]));
    assert_eq!(parser.extract_value(b"{\"a\":  42  }", b"\"a\":"), Some(&b"42"[..]));
    assert_eq!(parser.extract_value(b"{\"a\":\t\"q r\",", b"\"a\":"), Some(&b"q r"[..]));
}

#[test]
fn find_json_object_needs_utf8_and_braces() {
    assert_eq!(find_json_object(b"no object"), None);
    assert_eq!(find_json_object(b"{ unfinished"), None);
    assert_eq!(find_json_object(b"} {x}"), Some((2, 5)));
    assert_eq!(find_json_object(b"\xff{x}"), None);
    assert_eq!(find_braces(b"\xff{x}"), Some((1, 4)));
}

#[test]
fn parse_with_serde_reads_string_members() {
    let parser = JsonParser::new(2);
    let json = r#"{"Sx1":"1.0","Sy1":"2.0","Sc1":"3.0","Sx2":"4.0","Sy2":"5.0","Sc2":"6.0"}"#;
    let points = parser.parse_with_serde(json).unwrap();
    assert_eq!(points.len(), 2);
    assert_eq!(points[1].x, b"4.0".to_vec());
    assert_eq!(points[1].c, b"6.0".to_vec());
    assert_eq!(parser.parse_with_serde("not json").err(), Some(ErrorCode::JsonParseFailed));
    assert_eq!(
        JsonParser::new(0).parse_with_serde(r#"{"Sx1":1,"Sy1":"2","Sc1":"3"}"#).err(),
        Some(ErrorCode::JsonParseFailed)
    );
}

#[test]
fn readings_from_value_takes_a_parsed_document() {
    let value: serde_json::Value =
        serde_json::from_str(r#"{"Sy1":"b","Sx1":"a","Sc1":"c","Sx2":"d"}"#).unwrap();
    let points = JsonParser::new(0).readings_from_value(&value).unwrap();
    assert_eq!(points.len(), 1);
    assert_eq!(points[0].x, b"a".to_vec());
    assert_eq!(points[0].y, b"b".to_vec());
    assert_eq!(points[0].c, b"c".to_vec());
    assert_eq!(
        JsonParser::new(3).readings_from_value(&value).err(),
        Some(ErrorCode::JsonParseFailed)
    );
}

#[test]
fn take_sensor_readings_drains_the_object() {
    let mut buffer = RingBuffer::new(64);
    buffer
        .push(br#"xx{"Sx1":"1","Sy1":"2","Sc1":"3"}{"Sx1""#)
        .unwrap();
    let points = take_sensor_readings(&mut buffer, 1).unwrap();
    assert_eq!(points.len(), 1);
    assert_eq!(buffer.as_slice(), br#"{"Sx1""#);
    assert_eq!(take_sensor_readings(&mut buffer, 1).err(), Some(ErrorCode::ReadFailed));
    assert_eq!(buffer.as_slice(), br#"{"Sx1""#);
}

#[test]
fn take_sensor_readings_keeps_buffer_on_parse_failure() {
    let mut buffer = RingBuffer::new(64);
    buffer.push(br#"{"Sx1":"1","Sy1":"2","Sc1":"3"}"#).unwrap();
    assert_eq!(
        take_sensor_readings(&mut buffer, 2).err(),
        Some(ErrorCode::JsonParseFailed)
    );
    assert_eq!(buffer.len(), 31);
}

#[test]
fn parse_sensor_json_has_no_cap_and_accepts_none() {
    assert_eq!(parse_sensor_json("{}", 0).map(|v| v.len()), Ok(0));
    assert_eq!(parse_sensor_json("{}", 1).err(), Some(ErrorCode::JsonParseFailed));
    assert_eq!(parse_sensor_json("[", 0).err(), Some(ErrorCode::JsonParseFailed));
    let mut json = String::from("{");
    for i in 1..=1002 {
        if i > 1 {
            json.push(',');
        }
        json.push_str(&format!("\"Sx{}\":\"{}\",\"Sy{}\":\"2\",\"Sc{}\":\"3\"", i, i, i, i));
    }
    json.push('}');
    let points = parse_sensor_json(&json, 1002).unwrap();
    assert_eq!(points.len(), 1002);
    assert_eq!(points[1001].x, b"1002".to_vec());
}

#[test]
fn sensor_readings_from_value_takes_every_point() {
    let value: serde_json::Value = serde_json::from_str(
        r#"{"Sx1":"a","Sy1":"b","Sc1":"c","Sx2":"d","Sy2":"e","Sc2":"f","Sx4":"g"}"#,
    )
    .unwrap();
    let points = sensor_readings_from_value(&value, 0).unwrap();
    assert_eq!(points.len(), 2);
    assert_eq!(points[1].x, b"d".to_vec());
    assert_eq!(points[1].c, b"f".to_vec());
    assert_eq!(sensor_readings_from_value(&value, 2).unwrap().len(), 2);
    assert_eq!(
        sensor_readings_from_value(&value, 3).err(),
        Some(ErrorCode::JsonParseFailed)
    );
    let empty: serde_json::Value = serde_json::from_str("{}").unwrap();
    assert_eq!(sensor_readings_from_value(&empty, 0).unwrap().len(), 0);
}
