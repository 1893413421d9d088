use nredis::handler::handle_command;
use nredis::parser::{parse_next_command, FrameReader};
use nredis::server::respond;
use nredis::store::State;
use nredis::types::{RESPError, RESPValue};

fn text(s: &str) -> RESPValue {
    RESPValue::String(s.to_string())
}

fn command(words: &[&str]) -> RESPValue {
    RESPValue::Array(words.iter().map(|w| text(w)).collect())
}

fn send(wire: &str, state: &mut State, now: u64) -> String {
    let mut reader = FrameReader::new(wire.as_bytes());
    let frame = parse_next_command(&mut reader).expect("a frame");
    respond(&frame, state, now)
}

fn is_error(v: &RESPValue) -> bool {
    matches!(v, RESPValue::Error(RESPError { .. }))
}

#[test]
fn ping_over_the_wire() {
    let mut state = State::new();
    assert_eq!(send("*1\r\n$4\r\nPING\r\n", &mut state, 0), "+PONG\r\n");
}

#[test]
fn echo_over_the_wire() {
    let mut state = State::new();
    assert_eq!(send("*2\r\n$4\r\nECHO\r\n$5\r\nhello\r\n", &mut state, 0), "+hello\r\n");
}

#[test]
fn set_then_get_over_the_wire() {
    let mut state = State::new();
    assert_eq!(send("*3\r\n$3\r\nSET\r\n$3\r\nfoo\r\n$3\r\nbar\r\n", &mut state, 0), "+OK\r\n");
    assert_eq!(send("*2\r\n$3\r\nGET\r\n$3\r\nfoo\r\n", &mut state, 5), "+bar\r\n");
}

#[test]
fn expired_key_reads_as_null() {
    let mut state = State::new();
    assert_eq!(handle_command(&command(&["SET", "foo", "bar", "PX", "50"]), &mut state, 1000), text("OK"));
    assert_eq!(send("*2\r\n$3\r\nGET\r\n$3\r\nfoo\r\n", &mut state, 1100), "$-1\r\n");
}

#[test]
fn ttl_boundary() {
    let mut state = State::new();
    handle_command(&command(&["SET", "k", "v", "PX", "50"]), &mut state, 1000);
    assert_eq!(handle_command(&command(&["GET", "k"]), &mut state, 1000), text("v"));
    assert_eq!(handle_command(&command(&["GET", "k"]), &mut state, 1049), text("v"));
    assert_eq!(handle_command(&command(&["GET", "k"]), &mut state, 1050), RESPValue::NullString());
    assert_eq!(handle_command(&command(&["GET", "k"]), &mut state, 5000), RESPValue::NullString());
}

#[test]
fn zero_ttl_expires_at_once() {
    let mut state = State::new();
    handle_command(&command(&["SET", "k", "v", "PX", "0"]), &mut state, 7);
    assert_eq!(handle_command(&command(&["GET", "k"]), &mut state, 7), RESPValue::NullString());
}

#[test]
fn get_without_ttl_survives_any_time() {
    let mut state = State::new();
    handle_command(&command(&["SET", "k", "v"]), &mut state, 0);
    assert_eq!(handle_command(&command(&["GET", "k"]), &mut state, u64::MAX), text("v"));
}

#[test]
fn bare_set_clears_expiry() {
    let mut state = State::new();
    handle_command(&command(&["SET", "k", "old", "PX", "10"]), &mut state, 100);
    handle_command(&command(&["SET", "k", "new"]), &mut state, 105);
    assert_eq!(handle_command(&command(&["GET", "k"]), &mut state, 1000), text("new"));
}

#[test]
fn get_of_missing_key_is_null() {
    let mut state = State::new();
    assert_eq!(handle_command(&command(&["GET", "nope"]), &mut state, 0), RESPValue::NullString());
}

#[test]
fn names_and_px_are_case_insensitive() {
    let mut state = State::new();
    assert_eq!(handle_command(&command(&["sEt", "k", "v", "px", "10"]), &mut state, 0), text("OK"));
    assert_eq!(handle_command(&command(&["get", "k"]), &mut state, 9), text("v"));
    assert_eq!(handle_command(&command(&["GET", "k"]), &mut state, 10), RESPValue::NullString());
    assert_eq!(handle_command(&command(&["pInG"]), &mut state, 0), text("PONG"));
}

#[test]
fn arguments_are_taken_verbatim() {
    let mut state = State::new();
    handle_command(&command(&["SET", "Key", "Value"]), &mut state, 0);
    assert_eq!(handle_command(&command(&["GET", "key"]), &mut state, 0), RESPValue::NullString());
    assert_eq!(handle_command(&command(&["GET", "Key"]), &mut state, 0), text("Value"));
}

#[test]
fn unknown_command_is_informational() {
    let mut state = State::new();
    assert_eq!(handle_command(&command(&["FLUSHALL", "x"]), &mut state, 0), text("Unknown command!"));
    assert_eq!(send("+HELLO\r\n", &mut state, 0), "+Unknown command!\r\n");
}

#[test]
fn single_string_command_has_no_arguments() {
    let mut state = State::new();
    assert_eq!(handle_command(&text("PING"), &mut state, 0), text("PONG"));
    assert_eq!(handle_command(&text("ECHO"), &mut state, 0), text(""));
    assert_eq!(handle_command(&text("PING hi"), &mut state, 0), text("Unknown command!"));
    assert!(is_error(&handle_command(&text("GET"), &mut state, 0)));
}

#[test]
fn ping_echoes_its_argument() {
    let mut state = State::new();
    assert_eq!(handle_command(&command(&["PING", "hey"]), &mut state, 0), text("hey"));
    assert!(is_error(&handle_command(&command(&["PING", "a", "b"]), &mut state, 0)));
}

#[test]
fn echo_joins_with_spaces() {
    let mut state = State::new();
    assert_eq!(handle_command(&command(&["ECHO", "a", "b", "c"]), &mut state, 0), text("a b c"));
    assert_eq!(handle_command(&command(&["ECHO"]), &mut state, 0), text(""));
}

#[test]
fn command_errors() {
    let mut state = State::new();
    assert!(is_error(&handle_command(&command(&["SET", "k"]), &mut state, 0)));
    assert!(is_error(&handle_command(&command(&["SET", "k", "v", "PX"]), &mut state, 0)));
    assert!(is_error(&handle_command(&command(&["SET", "k", "v", "PX", "soon"]), &mut state, 0)));
    assert!(is_error(&handle_command(&command(&["SET", "k", "v", "PX", "-5"]), &mut state, 0)));
    assert!(is_error(&handle_command(&command(&["GET"]), &mut state, 0)));
    assert!(is_error(&handle_command(&command(&["GET", "a", "b"]), &mut state, 0)));
    assert_eq!(handle_command(&command(&["GET", "k"]), &mut state, 0), RESPValue::NullString());
}

#[test]
fn set_ignores_an_unknown_option() {
    let mut state = State::new();
    assert_eq!(handle_command(&command(&["SET", "k", "v", "EX", "1"]), &mut state, 0), text("OK"));
    assert_eq!(handle_command(&command(&["GET", "k"]), &mut state, u64::MAX), text("v"));
}

#[test]
fn protocol_violations() {
    let mut state = State::new();
    assert!(is_error(&handle_command(&RESPValue::Array(vec![]), &mut state, 0)));
    assert!(is_error(&handle_command(&RESPValue::NullString(), &mut state, 0)));
    let err = RESPValue::Error(RESPError { message: "x".to_string() });
    assert!(is_error(&handle_command(&err, &mut state, 0)));
    let not_strings = RESPValue::Array(vec![text("SET"), text("k"), RESPValue::NullString()]);
    assert!(is_error(&handle_command(&not_strings, &mut state, 0)));
    assert_eq!(handle_command(&command(&["GET", "k"]), &mut state, 0), RESPValue::NullString());
    let first_not_string = RESPValue::Array(vec![RESPValue::Array(vec![]), text("x")]);
    assert!(is_error(&handle_command(&first_not_string, &mut state, 0)));
}

#[test]
fn two_clients_on_disjoint_keys() {
    let mut state = State::new();
    for i in 0..1000u64 {
        for client in ["a", "b"] {
            let key = format!("{client}-key");
            let value = format!("{client}-{i}");
            assert_eq!(handle_command(&command(&["SET", &key, &value]), &mut state, i), text("OK"));
        }
        for client in ["b", "a"] {
            let key = format!("{client}-key");
            let expected = format!("{client}-{i}");
            assert_eq!(handle_command(&command(&["GET", &key]), &mut state, i), text(&expected));
        }
    }
}

#[test]
fn store_set_and_get() {
    let mut state = State::new();
    assert_eq!(state.get("k", 0), None);
    state.set("k".to_string(), "v".to_string(), Some(3), 10);
    assert_eq!(state.get("k", 12), Some("v".to_string()));
    assert_eq!(state.get("k", 13), None);
    state.set("k".to_string(), "w".to_string(), None, 20);
    assert_eq!(state.get("k", 1_000_000), Some("w".to_string()));
}

#[test]
fn ttl_near_the_top_of_the_clock() {
    let mut state = State::new();
    state.set("k".to_string(), "v".to_string(), Some(u64::MAX), u64::MAX - 1);
    assert_eq!(state.get("k", u64::MAX), Some("v".to_string()));
}

#[test]
fn protocol_violation_message() {
    let mut state = State::new();
    let expected = RESPValue::Error(RESPError { message: "Command needs to be defined as string".to_string() });
    let first_not_string = RESPValue::Array(vec![RESPValue::NullString(), text("x")]);
    assert_eq!(handle_command(&first_not_string, &mut state, 0), expected);
    assert_eq!(handle_command(&RESPValue::Array(vec![]), &mut state, 0), expected);
    assert_eq!(handle_command(&RESPValue::NullString(), &mut state, 0), expected);
}

#[test]
fn unknown_command_keeps_the_connection_reading() {
    let mut state = State::new();
    let mut reader = FrameReader::new(b"*1\r\n$3\r\nFOO\r\n*1\r\n$4\r\nPING\r\n");
    let first = parse_next_command(&mut reader).expect("a frame");
    assert_eq!(respond(&first, &mut state, 0), "+Unknown command!\r\n");
    let second = parse_next_command(&mut reader).expect("a frame");
    assert_eq!(respond(&second, &mut state, 0), "+PONG\r\n");
}
