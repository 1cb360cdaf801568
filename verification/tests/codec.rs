use bytes::Bytes;
use resp_kv::error::RedisError;
use resp_kv::frame::{write_frame, write_value, Frame};
use resp_kv::stream::{read_decimal, read_exact, read_frame, read_line, read_value, Step};

fn bulk(s: &str) -> Frame {
    Frame::Bulk(Bytes::from(s.to_string()))
}

fn decoded(input: &[u8]) -> (Frame, usize) {
    match read_frame(input) {
        Ok(Some(pair)) => pair,
        other => panic!("expected a frame, got {:?}", other),
    }
}

fn is_syntax_error(input: &[u8]) -> bool {
    matches!(read_frame(input), Err(RedisError::SyntaxErr(_)))
}

fn is_truncated(input: &[u8]) -> bool {
    matches!(read_frame(input), Err(RedisError::Io(_)))
}

#[test]
fn encode_simple_uses_plus() {
    assert_eq!(Frame::Simple("OK".to_string()).to_bytes(), b"+OK\r\n".to_vec());
}

#[test]
fn encode_error_uses_minus() {
    assert_eq!(Frame::Error("ERR x".to_string()).to_bytes(), b"-ERR x\r\n".to_vec());
}

#[test]
fn encode_integer_uses_colon() {
    assert_eq!(Frame::Integer(42).to_bytes(), b":42\r\n".to_vec());
    assert_eq!(Frame::Integer(0).to_bytes(), b":0\r\n".to_vec());
    assert_eq!(Frame::Integer(u64::MAX).to_bytes(), b":18446744073709551615\r\n".to_vec());
}

#[test]
fn encode_bulk_has_length_and_payload() {
    assert_eq!(bulk("hey").to_bytes(), b"$3\r\nhey\r\n".to_vec());
    assert_eq!(bulk("0123456789").to_bytes(), b"$10\r\n0123456789\r\n".to_vec());
}

#[test]
fn encode_empty_bulk_differs_from_null() {
    assert_eq!(bulk("").to_bytes(), b"$0\r\n\r\n".to_vec());
    assert_eq!(Frame::Null.to_bytes(), b"$-1\r\n".to_vec());
}

#[test]
fn encode_array_writes_each_element() {
    let frame = Frame::Array(vec![bulk("ECHO"), bulk("hey")]);
    assert_eq!(frame.to_bytes(), b"*2\r\n$4\r\nECHO\r\n$3\r\nhey\r\n".to_vec());
    assert_eq!(Frame::Array(vec![]).to_bytes(), b"*0\r\n".to_vec());
}

#[test]
fn encode_mixed_array() {
    let frame = Frame::Array(vec![
        Frame::Simple("a".to_string()),
        Frame::Integer(7),
        Frame::Null,
        Frame::Error("e".to_string()),
    ]);
    assert_eq!(frame.to_bytes(), b"*4\r\n+a\r\n:7\r\n$-1\r\n-e\r\n".to_vec());
}

#[test]
fn encode_nested_array_does_not_panic() {
    let frame = Frame::Array(vec![Frame::Array(vec![Frame::Integer(1)]), Frame::Integer(2)]);
    assert_eq!(frame.to_bytes(), b"*2\r\n*1\r\n:1\r\n:2\r\n".to_vec());
}

#[test]
fn write_appends_to_what_is_there() {
    let mut out = b"x".to_vec();
    write_value(&mut out, &Frame::Integer(5));
    write_frame(&mut out, &Frame::Array(vec![bulk("a")]));
    assert_eq!(out, b"x:5\r\n*1\r\n$1\r\na\r\n".to_vec());
}

#[test]
fn decode_of_nothing_is_clean_end() {
    assert!(matches!(read_frame(b""), Ok(None)));
}

#[test]
fn decode_echo_request() {
    let input = b"*2\r\n$4\r\nECHO\r\n$3\r\nhey\r\n";
    let (frame, used) = decoded(input);
    assert_eq!(frame, Frame::Array(vec![bulk("ECHO"), bulk("hey")]));
    assert_eq!(used, input.len());
    assert_eq!(used, 23);
}

#[test]
fn decode_scalars() {
    assert_eq!(decoded(b"+PONG\r\n"), (Frame::Simple("PONG".to_string()), 7));
    assert_eq!(decoded(b"-ERR no\r\n"), (Frame::Error("ERR no".to_string()), 9));
    assert_eq!(decoded(b":42\r\n"), (Frame::Integer(42), 5));
    assert_eq!(decoded(b"$3\r\nhey\r\n"), (bulk("hey"), 9));
}

#[test]
fn decode_empty_bulk_and_empty_array() {
    assert_eq!(decoded(b"$0\r\n\r\n"), (bulk(""), 6));
    assert_eq!(decoded(b"*0\r\n"), (Frame::Array(vec![]), 4));
    assert_eq!(decoded(b"+\r\n"), (Frame::Simple(String::new()), 3));
}

#[test]
fn decode_takes_only_the_first_frame() {
    assert_eq!(decoded(b"+OK\r\n+NEXT\r\n"), (Frame::Simple("OK".to_string()), 5));
    assert_eq!(decoded(b"*1\r\n:1\r\n:2\r\n"), (Frame::Array(vec![Frame::Integer(1)]), 8));
}

#[test]
fn decode_bulk_may_hold_line_ends() {
    assert_eq!(decoded(b"$4\r\na\r\nb\r\n"), (bulk("a\r\nb"), 10));
}

#[test]
fn decode_line_ends_at_first_terminator() {
    assert_eq!(decoded(b"+a\rb\r\nrest"), (Frame::Simple("a\rb".to_string()), 6));
    assert_eq!(decoded(b"+a\r\r\n"), (Frame::Simple("a\r".to_string()), 5));
}

#[test]
fn decode_number_limits() {
    assert_eq!(decoded(b":18446744073709551615\r\n").0, Frame::Integer(u64::MAX));
    assert_eq!(decoded(b":007\r\n").0, Frame::Integer(7));
    assert_eq!(decoded(b":+5\r\n").0, Frame::Integer(5));
    assert!(is_syntax_error(b":18446744073709551616\r\n"));
    assert!(is_syntax_error(b":\r\n"));
    assert!(is_syntax_error(b":+\r\n"));
    assert!(is_syntax_error(b":-1\r\n"));
    assert!(is_syntax_error(b":12a\r\n"));
    assert!(is_syntax_error(b": 1\r\n"));
}

#[test]
fn decode_rejects_unknown_prefix() {
    assert!(is_syntax_error(b"?\r\n"));
    assert!(is_syntax_error(b"PING\r\n"));
}

#[test]
fn decode_rejects_null_and_nested_arrays() {
    assert!(is_syntax_error(b"$-1\r\n"));
    assert!(is_syntax_error(b"*1\r\n*0\r\n"));
}

#[test]
fn decode_rejects_bad_lengths_and_terminators() {
    assert!(is_syntax_error(b"$x\r\nabc\r\n"));
    assert!(is_syntax_error(b"*x\r\n"));
    assert!(is_syntax_error(b"$3\r\nheyXX"));
    assert!(is_syntax_error(b"$3\r\nhey\rX"));
}

#[test]
fn decode_rejects_text_that_is_not_utf8() {
    assert!(is_syntax_error(b"+\xff\xfe\r\n"));
    assert!(is_syntax_error(b"-\xc3\r\n"));
    assert_eq!(decoded(b"+\xc3\xa9\r\n").0, Frame::Simple("\u{e9}".to_string()));
    assert_eq!(decoded(b"$2\r\n\xff\xfe\r\n").0, Frame::Bulk(Bytes::from(vec![0xff, 0xfe])));
}

#[test]
fn decode_of_partial_input_asks_for_more() {
    let whole = b"*2\r\n$4\r\nECHO\r\n$3\r\nhey\r\n";
    for cut in 1..whole.len() {
        assert!(is_truncated(&whole[..cut]));
    }
    assert!(is_truncated(b"+PON"));
    assert!(is_truncated(b"+PONG\r"));
    assert!(is_truncated(b"$3\r\nhey\r"));
    assert!(is_truncated(b"$"));
}

#[test]
fn decode_error_texts() {
    match read_frame(b"?") {
        Err(e) => assert_eq!(e.to_text(), "Syntax error! syntax error"),
        Ok(_) => panic!("expected an error"),
    }
    match read_frame(b"+a") {
        Err(e) => assert_eq!(e.to_text(), "unexpected end of stream"),
        Ok(_) => panic!("expected an error"),
    }
}

#[test]
fn round_trip_on_chosen_frames() {
    let frames = vec![
        Frame::Simple("hello world".to_string()),
        Frame::Simple(String::new()),
        Frame::Error("ERR bad".to_string()),
        Frame::Integer(0),
        Frame::Integer(9_999_999_999),
        bulk(""),
        bulk("a\r\nb"),
        Frame::Array(vec![]),
        Frame::Array(vec![bulk("SET"), bulk("k"), bulk("v"), Frame::Integer(3)]),
    ];
    for frame in frames {
        let bytes = frame.to_bytes();
        let (back, used) = decoded(&bytes);
        assert_eq!(back, frame);
        assert_eq!(used, bytes.len());
    }
}

#[test]
fn readers_work_from_a_position() {
    let input = b"xx12\r\nabc\r\n+ok\r\n";
    match read_line(input, 2) {
        Step::Done(line, next) => {
            assert_eq!(line, b"12");
            assert_eq!(next, 6);
        }
        _ => panic!("expected a line"),
    }
    assert!(matches!(read_decimal(input, 2), Step::Done(12, 6)));
    assert!(matches!(read_decimal(input, 6), Step::Bad));
    match read_exact(input, 6, 3) {
        Step::Done(body, next) => {
            assert_eq!(body, b"abc");
            assert_eq!(next, 11);
        }
        _ => panic!("expected a payload"),
    }
    assert!(matches!(read_exact(input, 6, 2), Step::Bad));
    assert!(matches!(read_exact(input, 6, 100), Step::Short));
    match read_value(input, 11) {
        Step::Done(frame, next) => {
            assert_eq!(frame, Frame::Simple("ok".to_string()));
            assert_eq!(next, 16);
        }
        _ => panic!("expected a value"),
    }
    assert!(matches!(read_value(input, 16), Step::Short));
    assert!(matches!(read_line(input, 16), Step::Short));
}

#[test]
fn frame_clone_and_default() {
    let frame = Frame::Array(vec![bulk("a"), Frame::Integer(1), Frame::Null]);
    assert_eq!(frame.clone(), frame);
    assert_eq!(frame.duplicate(), frame);
    assert_eq!(Frame::default(), Frame::Null);
}
