use redis::resp::read::{has_invalid_crlf, is_out_of_resp_range, Reader, RESP_MAX_SIZE};
use redis::resp::text::{parse_number, parse_string};
use redis::resp::{Error, Value};

fn bulk(text: &str) -> Value {
    Value::Bulk(text.to_string())
}

#[test]
fn test_has_invalid_crlf() {
    let buffer = vec![b'+', b'P', b'O', b'N', b'G', b'\r', b'\n'];
    let len = buffer.len();
    assert!(!has_invalid_crlf(buffer[len - 2], buffer[len - 1]));
}

#[test]
fn test_has_valid_crlf() {
    let buffer = vec![b'+', b'P', b'O', b'N', b'G', b'\n'];
    let len = buffer.len();
    assert!(has_invalid_crlf(buffer[len - 2], buffer[len - 1]));
}

#[test]
fn test_parse_simple_ping() {
    let buffer: &[u8] = b"+PING\r\n";

    let result = Value::read(buffer);

    assert!(result.is_ok());

    let command = result.unwrap();

    assert_eq!(command, Value::String("PING".to_string()));
}

#[test]
fn parse_array_ping() {
    let buffer: &[u8] = b"*1\r\n$4\r\nPING\r\n";

    let result = Value::read(buffer);

    assert!(result.is_ok());

    let command = result.unwrap();

    assert_eq!(command, Value::Array(vec![Value::Bulk("PING".to_string())]));
}

#[test]
fn crlf_check_wants_both_bytes() {
    assert!(has_invalid_crlf(b'\r', b'\r'));
    assert!(has_invalid_crlf(b'\n', b'\n'));
    assert!(has_invalid_crlf(b'\n', b'\r'));
    assert!(!has_invalid_crlf(b'\r', b'\n'));
}

#[test]
fn range_is_zero_to_512_mib() {
    assert_eq!(RESP_MAX_SIZE, 512 * 1024 * 1024);
    assert!(is_out_of_resp_range(-1));
    assert!(is_out_of_resp_range(-2));
    assert!(!is_out_of_resp_range(0));
    assert!(!is_out_of_resp_range(RESP_MAX_SIZE));
    assert!(is_out_of_resp_range(RESP_MAX_SIZE + 1));
    assert!(is_out_of_resp_range(i64::MIN));
    assert!(is_out_of_resp_range(i64::MAX));
}

#[test]
fn read_simple_string() {
    assert_eq!(Value::read(b"+OK\r\n"), Ok(Value::String("OK".to_string())));
    assert_eq!(Value::read(b"+\r\n"), Ok(Value::String(String::new())));
    assert_eq!(Value::read(b"+a\rb\r\n"), Ok(Value::String("a\rb".to_string())));
}

#[test]
fn read_error_value() {
    assert_eq!(Value::read(b"-ERR no\r\n"), Ok(Value::Error("ERR no".to_string())));
}

#[test]
fn read_integer() {
    assert_eq!(Value::read(b":123\r\n"), Ok(Value::Integer(123)));
    assert_eq!(Value::read(b":-7\r\n"), Ok(Value::Integer(-7)));
    assert_eq!(Value::read(b":+7\r\n"), Ok(Value::Integer(7)));
    assert_eq!(Value::read(b":007\r\n"), Ok(Value::Integer(7)));
    assert_eq!(Value::read(b":-9223372036854775808\r\n"), Ok(Value::Integer(i64::MIN)));
    assert_eq!(Value::read(b":9223372036854775807\r\n"), Ok(Value::Integer(i64::MAX)));
}

#[test]
fn read_integer_that_is_none() {
    let invalid = Err(Error::InvalidData("Invalid Integer"));
    assert_eq!(Value::read(b":9223372036854775808\r\n"), invalid);
    assert_eq!(Value::read(b":-9223372036854775809\r\n"), invalid);
    assert_eq!(Value::read(b":abc\r\n"), invalid);
    assert_eq!(Value::read(b":\r\n"), invalid);
    assert_eq!(Value::read(b":-\r\n"), invalid);
    assert_eq!(Value::read(b":+\r\n"), invalid);
    assert_eq!(Value::read(b":1 \r\n"), invalid);
    assert_eq!(Value::read(b":--1\r\n"), invalid);
    assert_eq!(Value::read(b":12a\r\n"), invalid);
}

#[test]
fn read_text_that_is_not_utf8() {
    let invalid = Err(Error::InvalidData("Invalid Simple String"));
    assert_eq!(Value::read(b"+\xff\r\n"), invalid);
    assert_eq!(Value::read(b"-\xc3\r\n"), invalid);
    assert_eq!(Value::read(b":\xff\r\n"), invalid);
    assert_eq!(Value::read(b"*\xff\r\n"), invalid);
    assert_eq!(Value::read(b"$\xff\r\n"), invalid);
    assert_eq!(Value::read(b"$2\r\n\xff\xfe\r\n"), invalid);
    assert_eq!(Value::read(b"+\xed\xa0\x80\r\n"), invalid);
    assert_eq!(Value::read(b"+\xc0\x80\r\n"), invalid);
}

#[test]
fn read_text_beyond_ascii() {
    assert_eq!(
        Value::read("+h\u{e9}llo \u{4e16}\u{754c} \u{1f600}\r\n".as_bytes()),
        Ok(Value::String("h\u{e9}llo \u{4e16}\u{754c} \u{1f600}".to_string()))
    );
    assert_eq!(Value::read("$2\r\n\u{e9}\r\n".as_bytes()), Ok(bulk("\u{e9}")));
}

#[test]
fn read_bulk() {
    assert_eq!(Value::read(b"$3\r\nabc\r\n"), Ok(bulk("abc")));
    assert_eq!(Value::read(b"$0\r\n\r\n"), Ok(bulk("")));
    assert_eq!(Value::read(b"$4\r\na\r\nb\r\n"), Ok(bulk("a\r\nb")));
    assert_eq!(Value::read(b"$+3\r\nabc\r\n"), Ok(bulk("abc")));
}

#[test]
fn read_sentinels() {
    assert_eq!(Value::read(b"$-1\r\n"), Ok(Value::Null));
    assert_eq!(Value::read(b"*-1\r\n"), Ok(Value::NullArray));
}

#[test]
fn sentinels_encode_to_the_bytes_they_came_from() {
    for input in [&b"$-1\r\n"[..], &b"*-1\r\n"[..]] {
        let value = Value::read(input).unwrap();
        let mut bytes = Vec::new();
        value.write(&mut bytes);
        assert_eq!(bytes, input);
    }
}

#[test]
fn read_length_out_of_range() {
    assert_eq!(Value::read(b"$-2\r\n"), Err(Error::InvalidData("Invalid Bulk size")));
    assert_eq!(Value::read(b"*-2\r\n"), Err(Error::InvalidData("Invalid Array size")));
    assert_eq!(Value::read(b"$536870913\r\n"), Err(Error::InvalidData("Invalid Bulk size")));
    assert_eq!(Value::read(b"*536870913\r\n"), Err(Error::InvalidData("Invalid Array size")));
    assert_eq!(
        Value::read(b"$9223372036854775807\r\n"),
        Err(Error::InvalidData("Invalid Bulk size"))
    );
    assert_eq!(
        Value::read(b"*-9223372036854775808\r\n"),
        Err(Error::InvalidData("Invalid Array size"))
    );
}

#[test]
fn read_length_at_the_limit() {
    assert_eq!(Value::read(b"$536870912\r\n"), Err(Error::Io("Cannot read bulk")));
    assert_eq!(Value::read(b"*536870912\r\n"), Err(Error::UnexpectedEof));
}

#[test]
fn read_bulk_cut_short() {
    let io = Err(Error::Io("Cannot read bulk"));
    assert_eq!(Value::read(b"$5\r\nabc\r\n"), io);
    assert_eq!(Value::read(b"$3\r\nabc\r"), io);
    assert_eq!(Value::read(b"$3\r\nabc"), io);
    assert_eq!(Value::read(b"$3\r\n"), io);
    assert_eq!(Value::read(b"$0\r\n\r"), io);
}

#[test]
fn read_bulk_without_crlf() {
    let invalid = Err(Error::InvalidInput("Invalid CRLF"));
    assert_eq!(Value::read(b"$3\r\nabcde"), invalid);
    assert_eq!(Value::read(b"$3\r\nabc\n\r"), invalid);
    assert_eq!(Value::read(b"$2\r\nabc\r\n"), invalid);
}

#[test]
fn read_short_line() {
    let short = Err(Error::InvalidInput("Buffer too short"));
    assert_eq!(Value::read(b"\n"), short);
    assert_eq!(Value::read(b"\r\n"), short);
    assert_eq!(Value::read(b"+\n"), short);
    assert_eq!(Value::read(b"+"), short);
    assert_eq!(Value::read(b"+O"), short);
}

#[test]
fn read_line_without_crlf() {
    let invalid = Err(Error::InvalidInput("Invalid CRLF"));
    assert_eq!(Value::read(b"+PONG\n"), invalid);
    assert_eq!(Value::read(b"+PONG"), invalid);
    assert_eq!(Value::read(b"+PONG\r"), invalid);
    assert_eq!(Value::read(b":12\n"), invalid);
    assert_eq!(Value::read(b"?ab\n"), invalid);
}

#[test]
fn read_empty_input() {
    assert_eq!(Value::read(b""), Err(Error::UnexpectedEof));
}

#[test]
fn read_unknown_tag() {
    let unknown = Err(Error::InvalidInput("Invalid byte identifier"));
    assert_eq!(Value::read(b"?abc\r\n"), unknown);
    assert_eq!(Value::read(b"PING\r\n"), unknown);
    assert_eq!(Value::read(b"\r\r\n"), unknown);
}

#[test]
fn read_array() {
    assert_eq!(Value::read(b"*0\r\n"), Ok(Value::Array(vec![])));
    assert_eq!(
        Value::read(b"*2\r\n$3\r\nGET\r\n$1\r\nk\r\n"),
        Ok(Value::Array(vec![bulk("GET"), bulk("k")]))
    );
    assert_eq!(
        Value::read(b"*5\r\n+a\r\n-b\r\n:3\r\n$-1\r\n*-1\r\n"),
        Ok(Value::Array(vec![
            Value::String("a".to_string()),
            Value::Error("b".to_string()),
            Value::Integer(3),
            Value::Null,
            Value::NullArray,
        ]))
    );
}

#[test]
fn read_nested_array() {
    assert_eq!(
        Value::read(b"*2\r\n*2\r\n:1\r\n*0\r\n$1\r\nx\r\n"),
        Ok(Value::Array(vec![
            Value::Array(vec![Value::Integer(1), Value::Array(vec![])]),
            bulk("x"),
        ]))
    );
}

#[test]
fn read_array_that_fails_inside() {
    assert_eq!(Value::read(b"*2\r\n:1\r\n"), Err(Error::UnexpectedEof));
    assert_eq!(Value::read(b"*2\r\n:1\r\n:x\r\n"), Err(Error::InvalidData("Invalid Integer")));
    assert_eq!(Value::read(b"*2\r\n:x\r\n:1\r\n"), Err(Error::InvalidData("Invalid Integer")));
    assert_eq!(Value::read(b"*2\r\n:1\r\n+a\n"), Err(Error::InvalidInput("Invalid CRLF")));
    assert_eq!(Value::read(b"*1\r\n$3\r\nab"), Err(Error::Io("Cannot read bulk")));
    assert_eq!(
        Value::read(b"*3\r\n*1\r\n?\r\n:1\r\n:2\r\n"),
        Err(Error::InvalidInput("Invalid byte identifier"))
    );
}

#[test]
fn read_takes_one_unit_and_no_more() {
    assert_eq!(Value::read(b":1\r\n:2\r\n"), Ok(Value::Integer(1)));
    assert_eq!(Value::read(b"$1\r\na\r\ngarbage"), Ok(bulk("a")));
}

#[test]
fn reader_hands_out_units_one_by_one() {
    let mut reader = Reader::new(b"+a\r\n*1\r\n$2\r\nxy\r\n:5\r\n$-1\r\n");
    assert_eq!(reader.read(), Ok(Value::String("a".to_string())));
    assert_eq!(reader.read(), Ok(Value::Array(vec![bulk("xy")])));
    assert_eq!(reader.read(), Ok(Value::Integer(5)));
    assert_eq!(reader.read(), Ok(Value::Null));
    assert_eq!(reader.read(), Err(Error::UnexpectedEof));
    assert_eq!(reader.read(), Err(Error::UnexpectedEof));
}

#[test]
fn reader_goes_on_after_a_bad_line() {
    let mut reader = Reader::new(b":x\r\n:2\r\n");
    assert_eq!(reader.read(), Err(Error::InvalidData("Invalid Integer")));
    assert_eq!(reader.read(), Ok(Value::Integer(2)));
}

#[test]
fn reader_is_at_the_end_after_a_bulk_cut_short() {
    let mut reader = Reader::new(b"$9\r\nabc\r\n:2\r\n");
    assert_eq!(reader.read(), Err(Error::Io("Cannot read bulk")));
    assert_eq!(reader.read(), Err(Error::UnexpectedEof));
}

#[test]
fn parse_string_reads_utf8() {
    assert_eq!(parse_string(b"abc"), Ok("abc".to_string()));
    assert_eq!(parse_string(b""), Ok(String::new()));
    assert_eq!(parse_string("\u{e9}".as_bytes()), Ok("\u{e9}".to_string()));
    assert_eq!(parse_string(b"\xe9"), Err(Error::InvalidData("Invalid Simple String")));
}

#[test]
fn parse_number_reads_decimal() {
    assert_eq!(parse_number(b"42"), Ok(42));
    assert_eq!(parse_number(b"-1"), Ok(-1));
    assert_eq!(parse_number(b"4 2"), Err(Error::InvalidData("Invalid Integer")));
    assert_eq!(parse_number(b"\xff"), Err(Error::InvalidData("Invalid Simple String")));
    assert_eq!(parse_number("\u{663}".as_bytes()), Err(Error::InvalidData("Invalid Integer")));
}
