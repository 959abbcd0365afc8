use tokio_redis::decimal::parse_int;
use tokio_redis::decimal::push_decimal;
use tokio_redis::decimal::push_int;

fn text_of(n: i64) -> Vec<u8> {
    let mut out = Vec::new();
    push_int(&mut out, n);
    out
}

#[test]
fn reads_plain_and_signed_numbers() {
    assert_eq!(parse_int(b"0", 0, 1), Some(0));
    assert_eq!(parse_int(b"12345", 0, 5), Some(12345));
    assert_eq!(parse_int(b"-12345", 0, 6), Some(-12345));
    assert_eq!(parse_int(b"+5", 0, 2), Some(5));
    assert_eq!(parse_int(b"-0", 0, 2), Some(0));
    assert_eq!(parse_int(b"0000000000000000000000012", 0, 25), Some(12));
}

#[test]
fn reads_only_the_given_range() {
    assert_eq!(parse_int(b"ab123cd", 2, 5), Some(123));
    assert_eq!(parse_int(b"ab123cd", 2, 6), None);
}

#[test]
fn refuses_what_is_no_integer() {
    assert_eq!(parse_int(b"", 0, 0), None);
    assert_eq!(parse_int(b"-", 0, 1), None);
    assert_eq!(parse_int(b"+", 0, 1), None);
    assert_eq!(parse_int(b"1-", 0, 2), None);
    assert_eq!(parse_int(b"+-1", 0, 3), None);
    assert_eq!(parse_int(b"1.5", 0, 3), None);
    assert_eq!(parse_int(b"9223372036854775808x", 0, 20), None);
}

#[test]
fn reads_up_to_the_limits_of_i64() {
    assert_eq!(parse_int(b"9223372036854775807", 0, 19), Some(i64::MAX));
    assert_eq!(parse_int(b"-9223372036854775808", 0, 20), Some(i64::MIN));
    assert_eq!(parse_int(b"9223372036854775808", 0, 19), None);
    assert_eq!(parse_int(b"-9223372036854775809", 0, 20), None);
    assert_eq!(parse_int(b"18446744073709551616", 0, 20), None);
    assert_eq!(parse_int(b"92233720368547758070", 0, 20), None);
}

#[test]
fn writes_the_shortest_decimal_text() {
    assert_eq!(text_of(0), b"0".to_vec());
    assert_eq!(text_of(7), b"7".to_vec());
    assert_eq!(text_of(10), b"10".to_vec());
    assert_eq!(text_of(-1), b"-1".to_vec());
    assert_eq!(text_of(1234567890), b"1234567890".to_vec());
    assert_eq!(text_of(i64::MAX), b"9223372036854775807".to_vec());
    assert_eq!(text_of(i64::MIN), b"-9223372036854775808".to_vec());
}

#[test]
fn appends_behind_what_is_there() {
    let mut out = b"n=".to_vec();
    push_decimal(&mut out, u64::MAX);
    assert_eq!(out, b"n=18446744073709551615".to_vec());
}

#[test]
fn written_integers_read_back() {
    for n in [0i64, 1, -1, 9, 10, 99, 100, -100, 4096, i64::MAX, i64::MIN, i64::MIN + 1] {
        let text = text_of(n);
        assert_eq!(parse_int(&text, 0, text.len()), Some(n));
    }
}
