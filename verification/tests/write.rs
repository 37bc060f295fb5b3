use redis::resp::read::Reader;
use redis::resp::write::encode_to_buffer;
use redis::resp::Value;

fn encoded(value: &Value) -> Vec<u8> {
    let mut bytes = Vec::new();
    value.write(&mut bytes);
    bytes
}

fn round_trips(value: Value) {
    let bytes = encoded(&value);
    assert_eq!(Value::read(&bytes), Ok(value.clone()));
    let mut reader = Reader::new(&bytes);
    assert_eq!(reader.read(), Ok(value));
    assert!(reader.read().is_err());
}

#[test]
fn write_null() {
    assert_eq!(encoded(&Value::Null), b"$-1\r\n");
}

#[test]
fn write_null_array() {
    assert_eq!(encoded(&Value::NullArray), b"*-1\r\n");
}

#[test]
fn write_simple_string() {
    assert_eq!(encoded(&Value::String("OK".to_string())), b"+OK\r\n");
    assert_eq!(encoded(&Value::String(String::new())), b"+\r\n");
}

#[test]
fn write_error_value() {
    assert_eq!(encoded(&Value::Error("ERR x".to_string())), b"-ERR x\r\n");
}

#[test]
fn write_integer() {
    assert_eq!(encoded(&Value::Integer(123)), b":123\r\n");
    assert_eq!(encoded(&Value::Integer(0)), b":0\r\n");
    assert_eq!(encoded(&Value::Integer(-1)), b":-1\r\n");
    assert_eq!(encoded(&Value::Integer(10)), b":10\r\n");
    assert_eq!(encoded(&Value::Integer(i64::MAX)), b":9223372036854775807\r\n");
    assert_eq!(encoded(&Value::Integer(i64::MIN)), b":-9223372036854775808\r\n");
}

#[test]
fn write_bulk() {
    assert_eq!(encoded(&Value::Bulk("PING".to_string())), b"$4\r\nPING\r\n");
    assert_eq!(encoded(&Value::Bulk(String::new())), b"$0\r\n\r\n");
    assert_eq!(encoded(&Value::Bulk("a\r\nb".to_string())), b"$4\r\na\r\nb\r\n");
    assert_eq!(encoded(&Value::Bulk("0123456789".to_string())), b"$10\r\n0123456789\r\n");
}

#[test]
fn write_bulk_counts_bytes_not_characters() {
    assert_eq!(encoded(&Value::Bulk("\u{e9}".to_string())), b"$2\r\n\xc3\xa9\r\n");
    assert_eq!(encoded(&Value::Bulk("\u{1f600}".to_string())), b"$4\r\n\xf0\x9f\x98\x80\r\n");
}

#[test]
fn write_array() {
    assert_eq!(encoded(&Value::Array(vec![])), b"*0\r\n");
    assert_eq!(
        encoded(&Value::Array(vec![
            Value::Bulk("GET".to_string()),
            Value::Bulk("k".to_string()),
        ])),
        b"*2\r\n$3\r\nGET\r\n$1\r\nk\r\n"
    );
    assert_eq!(
        encoded(&Value::Array(vec![
            Value::Array(vec![Value::Integer(1), Value::Null]),
            Value::NullArray,
            Value::String("s".to_string()),
        ])),
        b"*3\r\n*2\r\n:1\r\n$-1\r\n*-1\r\n+s\r\n"
    );
}

#[test]
fn write_array_of_twelve() {
    let items: Vec<Value> = (0..12).map(Value::Integer).collect();
    assert_eq!(
        encoded(&Value::Array(items)),
        b"*12\r\n:0\r\n:1\r\n:2\r\n:3\r\n:4\r\n:5\r\n:6\r\n:7\r\n:8\r\n:9\r\n:10\r\n:11\r\n"
    );
}

#[test]
fn write_appends_to_what_is_there() {
    let mut bytes = b"+a\r\n".to_vec();
    Value::Integer(5).write(&mut bytes);
    Value::Null.write(&mut bytes);
    assert_eq!(bytes, b"+a\r\n:5\r\n$-1\r\n");
}

#[test]
fn encode_to_buffer_is_what_write_does() {
    let value = Value::Array(vec![Value::Bulk("x".to_string()), Value::Integer(-3)]);
    let mut bytes = Vec::new();
    encode_to_buffer(&value, &mut bytes);
    assert_eq!(bytes, encoded(&value));
    assert_eq!(bytes, b"*2\r\n$1\r\nx\r\n:-3\r\n");
}

#[test]
fn write_does_not_check_the_text_of_a_simple_string() {
    assert_eq!(encoded(&Value::String("a\r\nb".to_string())), b"+a\r\nb\r\n");
}

#[test]
fn round_trip_of_scalars() {
    round_trips(Value::Null);
    round_trips(Value::NullArray);
    round_trips(Value::String("PONG".to_string()));
    round_trips(Value::String(String::new()));
    round_trips(Value::Error("ERR wrong".to_string()));
    round_trips(Value::Integer(0));
    round_trips(Value::Integer(-42));
    round_trips(Value::Integer(i64::MAX));
    round_trips(Value::Integer(i64::MIN));
}

#[test]
fn round_trip_of_bulk() {
    round_trips(Value::Bulk(String::new()));
    round_trips(Value::Bulk("hello".to_string()));
    round_trips(Value::Bulk("line one\r\nline two\n\r".to_string()));
    round_trips(Value::Bulk("h\u{e9}llo \u{4e16}\u{754c} \u{1f600}".to_string()));
    round_trips(Value::Bulk("x".repeat(100_000)));
}

#[test]
fn round_trip_of_text_beyond_ascii() {
    round_trips(Value::String("\u{e9}\u{10a}\u{d7ff}\u{e000}\u{10ffff}".to_string()));
    round_trips(Value::Error("\u{7f}\u{80}\u{7ff}\u{800}\u{ffff}\u{10000}".to_string()));
}

#[test]
fn round_trip_of_arrays() {
    round_trips(Value::Array(vec![]));
    round_trips(Value::Array(vec![Value::Array(vec![Value::Array(vec![])])]));
    round_trips(Value::Array(vec![
        Value::Bulk("SET".to_string()),
        Value::Bulk("key".to_string()),
        Value::Bulk("value\r\n".to_string()),
        Value::Integer(7),
        Value::Null,
        Value::NullArray,
        Value::Array(vec![Value::String("in".to_string()), Value::Error("e".to_string())]),
    ]));
    round_trips(Value::Array((0..1000).map(Value::Integer).collect()));
}

#[test]
fn two_values_in_a_row_come_back_in_a_row() {
    let first = Value::Array(vec![Value::Bulk("a".to_string())]);
    let second = Value::Integer(9);
    let mut bytes = Vec::new();
    first.write(&mut bytes);
    second.write(&mut bytes);
    let mut reader = Reader::new(&bytes);
    assert_eq!(reader.read(), Ok(first));
    assert_eq!(reader.read(), Ok(second));
}

#[test]
fn clone_keeps_the_content() {
    let value = Value::Array(vec![
        Value::Bulk("a".to_string()),
        Value::Array(vec![Value::Integer(1), Value::Null]),
        Value::String("s".to_string()),
        Value::Error("e".to_string()),
        Value::NullArray,
    ]);
    assert_eq!(value.clone(), value);
}
