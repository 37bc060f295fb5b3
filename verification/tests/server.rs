use redis::server::respond;
use redis::storage::strings::{get, Store};

#[test]
fn respond_to_ping() {
    let mut store = Store::new();
    assert_eq!(respond(b"$4\r\nPING\r\n", &mut store), Some(b"+PONG\r\n".to_vec()));
}

#[test]
fn respond_to_ping_in_an_array() {
    let mut store = Store::new();
    assert_eq!(respond(b"*1\r\n$4\r\nPING\r\n", &mut store), Some(b"*1\r\n+PONG\r\n".to_vec()));
}

#[test]
fn respond_to_set_and_get() {
    let mut store = Store::new();
    assert_eq!(
        respond(b"*3\r\n$3\r\nSET\r\n$1\r\nk\r\n$5\r\nvalue\r\n", &mut store),
        Some(b"+OK\r\n".to_vec())
    );
    assert_eq!(get(&store, "k"), Some("value".to_string()));
    assert_eq!(
        respond(b"*2\r\n$3\r\nget\r\n$1\r\nk\r\n", &mut store),
        Some(b"+value\r\n".to_vec())
    );
    assert_eq!(
        respond(b"*2\r\n$3\r\nGET\r\n$1\r\nx\r\n", &mut store),
        Some(b"$-1\r\n".to_vec())
    );
}

#[test]
fn respond_to_mset_and_mget() {
    let mut store = Store::new();
    assert_eq!(
        respond(b"*5\r\n$4\r\nMSET\r\n$1\r\na\r\n$1\r\n1\r\n$1\r\nb\r\n$1\r\n2\r\n", &mut store),
        Some(b"+OK\r\n".to_vec())
    );
    assert_eq!(
        respond(b"*4\r\n$4\r\nMGET\r\n$1\r\nb\r\n$1\r\nx\r\n$1\r\na\r\n", &mut store),
        Some(b"*3\r\n+2\r\n$-1\r\n+1\r\n".to_vec())
    );
}

#[test]
fn respond_to_what_is_no_command() {
    let mut store = Store::new();
    assert_eq!(
        respond(b":5\r\n", &mut store),
        Some(b"-Unknown command: Integer(5)\r\n".to_vec())
    );
}

#[test]
fn respond_to_input_that_does_not_decode() {
    let mut store = Store::new();
    assert_eq!(
        respond(b":x\r\n", &mut store),
        Some(b"-Unknown command: Error(\"Invalid Data: Invalid Integer\")\r\n".to_vec())
    );
    assert_eq!(
        respond(b"+PONG\n", &mut store),
        Some(b"-Unknown command: Error(\"Invalid Input: Invalid CRLF\")\r\n".to_vec())
    );
    assert_eq!(
        respond(b"$5\r\nab\r\n", &mut store),
        Some(b"-Unknown command: Error(\"IO Error: Cannot read bulk\")\r\n".to_vec())
    );
}

#[test]
fn respond_to_input_that_ends_early() {
    let mut store = Store::new();
    assert_eq!(respond(b"", &mut store), None);
    assert_eq!(respond(b"*2\r\n$3\r\nGET\r\n", &mut store), None);
}
