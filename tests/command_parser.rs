use nredis::parser::{parse_next_command, FrameReader};
use nredis::types::{RESPError, RESPValue};

#[test]
fn parsing_simple_string_works() {
    let input = "+SIMPLE_STUFF\r\n";
    let result = parse_next_command(&mut FrameReader::new(input.as_bytes()));
    assert!(matches!(result, Some(RESPValue::String(..))));
}

#[test]
fn parsing_multiple_lines() {
    let input = "+SIMPLE_STUFF\r\n+OTHER_STUFF";
    let stream = &mut FrameReader::new(input.as_bytes());
    let result = parse_next_command(stream);
    assert!(matches!(result, Some(RESPValue::String(..))));
    let result = parse_next_command(stream);
    assert!(matches!(result, Some(RESPValue::String(..))));
}

#[test]
fn returns_none_if_no_command_is_found() {
    let mut reader = FrameReader::new("+SIMPLE_STUFF\r\n+OTHER_STUFF\r\n".as_bytes());

    let command = parse_next_command(&mut reader);
    println!("{command:?}");
    assert!(matches!(command, Some(RESPValue::String(..))));
    let command = parse_next_command(&mut reader);
    println!("{command:?}");
    assert!(matches!(command, Some(RESPValue::String(..))));
    let command = parse_next_command(&mut reader);
    println!("{command:?}");
    assert!(matches!(command, None));
}

#[test]
fn parses_error() {
    let mut reader = FrameReader::new("-ERROR_MESSAGE\r\n".as_bytes());

    let command = parse_next_command(&mut reader);
    println!("{command:?}");
    assert!(matches!(command, Some(RESPValue::Error(RESPError { .. }))));
}

#[test]
fn parses_array() {
    let lines = [
        "*7",
        "+MESSAGE 1",
        "+MESSAGE 2",
        "+MESSAGE 3",
        "+MESSAGE 4",
        "+MESSAGE 5",
        "$5",
        "hello",
        "$5",
        "hello",
        "",
    ];

    let input = lines.join("\r\n");
    let mut reader = FrameReader::new(input.as_bytes());
    let command = parse_next_command(&mut reader);
    println!("{command:?}");
}
