use tokio_redis::parse;
use tokio_redis::ParseResult;
use tokio_redis::Value;

fn done(value: Value, consumed: usize) -> ParseResult {
    ParseResult::Done(value, consumed)
}

#[test]
fn parses_a_status() {
    assert_eq!(parse(b"+OK\r\n"), done(Value::Status("OK".to_string()), 5));
}

#[test]
fn parses_an_empty_status() {
    assert_eq!(parse(b"+\r\n"), done(Value::Status(String::new()), 3));
}

#[test]
fn parses_an_error_reply() {
    assert_eq!(
        parse(b"-ERR unknown command\r\n"),
        done(Value::ServerError("ERR unknown command".to_string()), 22)
    );
}

#[test]
fn parses_integers() {
    assert_eq!(parse(b":0\r\n"), done(Value::Int(0), 4));
    assert_eq!(parse(b":1000\r\n"), done(Value::Int(1000), 7));
    assert_eq!(parse(b":-42\r\n"), done(Value::Int(-42), 6));
    assert_eq!(parse(b":+42\r\n"), done(Value::Int(42), 6));
    assert_eq!(parse(b":007\r\n"), done(Value::Int(7), 6));
}

#[test]
fn parses_the_extreme_integers() {
    assert_eq!(parse(b":9223372036854775807\r\n"), done(Value::Int(i64::MAX), 22));
    assert_eq!(parse(b":-9223372036854775808\r\n"), done(Value::Int(i64::MIN), 23));
}

#[test]
fn refuses_integers_out_of_range() {
    assert_eq!(parse(b":9223372036854775808\r\n"), ParseResult::ParseError);
    assert_eq!(parse(b":-9223372036854775809\r\n"), ParseResult::ParseError);
    assert_eq!(parse(b":99999999999999999999999999\r\n"), ParseResult::ParseError);
}

#[test]
fn refuses_what_is_no_number() {
    assert_eq!(parse(b":\r\n"), ParseResult::ParseError);
    assert_eq!(parse(b":-\r\n"), ParseResult::ParseError);
    assert_eq!(parse(b":12a\r\n"), ParseResult::ParseError);
    assert_eq!(parse(b": 12\r\n"), ParseResult::ParseError);
    assert_eq!(parse(b"$abc\r\n"), ParseResult::ParseError);
    assert_eq!(parse(b"*x\r\n"), ParseResult::ParseError);
    assert_eq!(parse(b"$--1\r\n"), ParseResult::ParseError);
}

#[test]
fn refuses_an_unknown_tag() {
    assert_eq!(parse(b"?"), ParseResult::ParseError);
    assert_eq!(parse(b"OK\r\n"), ParseResult::ParseError);
    assert_eq!(parse(b"\r\n"), ParseResult::ParseError);
}

#[test]
fn parses_a_byte_string() {
    assert_eq!(parse(b"$5\r\nhello\r\n"), done(Value::Data(b"hello".to_vec()), 11));
    assert_eq!(parse(b"$0\r\n\r\n"), done(Value::Data(Vec::new()), 6));
}

#[test]
fn byte_strings_are_binary_safe() {
    let frame = b"$8\r\na\r\nb\0\r\n\xff\r\n";
    assert_eq!(parse(frame), done(Value::Data(b"a\r\nb\0\r\n\xff".to_vec()), frame.len()));
}

#[test]
fn a_byte_string_must_end_in_crlf() {
    assert_eq!(parse(b"$5\r\nhelloXY"), ParseResult::ParseError);
    assert_eq!(parse(b"$5\r\nhello\rX"), ParseResult::ParseError);
    assert_eq!(parse(b"$5\r\nhello\r"), ParseResult::NeedMoreData);
}

#[test]
fn length_minus_one_is_nil() {
    assert_eq!(parse(b"$-1\r\n"), done(Value::Nil, 5));
    assert_eq!(parse(b"*-1\r\n"), done(Value::Nil, 5));
}

#[test]
fn other_negative_lengths_are_refused() {
    assert_eq!(parse(b"$-2\r\n"), ParseResult::ParseError);
    assert_eq!(parse(b"*-7\r\n"), ParseResult::ParseError);
}

#[test]
fn parses_sequences() {
    assert_eq!(parse(b"*0\r\n"), done(Value::Bulk(Vec::new()), 4));
    assert_eq!(
        parse(b"*2\r\n$1\r\na\r\n$-1\r\n"),
        done(Value::Bulk(vec![Value::Data(b"a".to_vec()), Value::Nil]), 16)
    );
}

#[test]
fn parses_a_nested_sequence() {
    let frame = b"*2\r\n*1\r\n:7\r\n$3\r\na\r\n\r\nrest";
    let expected = Value::Bulk(vec![
        Value::Bulk(vec![Value::Int(7)]),
        Value::Data(b"a\r\n".to_vec()),
    ]);
    assert_eq!(parse(frame), done(expected, frame.len() - 4));
}

#[test]
fn an_error_inside_a_sequence_refuses_the_sequence() {
    assert_eq!(parse(b"*2\r\n:1\r\n?\r\n"), ParseResult::ParseError);
}

#[test]
fn a_huge_count_waits_for_more_data() {
    assert_eq!(parse(b"*9223372036854775807\r\n:1\r\n"), ParseResult::NeedMoreData);
    assert_eq!(parse(b"$9223372036854775807\r\nabc"), ParseResult::NeedMoreData);
}

#[test]
fn empty_input_needs_more_data() {
    assert_eq!(parse(b""), ParseResult::NeedMoreData);
}

#[test]
fn every_proper_prefix_needs_more_data() {
    let frames: Vec<&[u8]> = vec![
        b"+OK\r\n",
        b"-ERR no\r\n",
        b":-123\r\n",
        b"$5\r\nhe\r\no\r\n",
        b"$-1\r\n",
        b"*3\r\n$1\r\na\r\n*2\r\n:1\r\n+x\r\n$-1\r\n",
    ];
    for frame in frames {
        let whole = parse(frame);
        assert!(matches!(whole, ParseResult::Done(_, n) if n == frame.len()));
        for k in 0..frame.len() {
            assert_eq!(parse(&frame[..k]), ParseResult::NeedMoreData);
        }
    }
}

#[test]
fn nothing_behind_a_frame_is_consumed() {
    assert_eq!(parse(b"+OK\r\n+NEXT\r\n"), done(Value::Status("OK".to_string()), 5));
    assert_eq!(parse(b":1\r\n?garbage"), done(Value::Int(1), 4));
}

#[test]
fn a_status_holds_utf8_text() {
    let frame = "+h\u{e9}llo \u{4e16}\u{754c}\r\n".as_bytes();
    assert_eq!(
        parse(frame),
        done(Value::Status("h\u{e9}llo \u{4e16}\u{754c}".to_string()), frame.len())
    );
}

#[test]
fn a_status_that_is_not_utf8_is_refused() {
    assert_eq!(parse(b"+\xff\xfe\r\n"), ParseResult::ParseError);
    assert_eq!(parse(b"-\xc3\r\n"), ParseResult::ParseError);
}

#[test]
fn a_lone_cr_or_lf_does_not_end_a_line() {
    assert_eq!(parse(b"+a\rb\nc\r\n"), done(Value::Status("a\rb\nc".to_string()), 8));
    assert_eq!(parse(b"+a\rb\n"), ParseResult::NeedMoreData);
}
