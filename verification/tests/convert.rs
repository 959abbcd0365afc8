use tokio_redis::ErrorKind;
use tokio_redis::FromRedisValue;
use tokio_redis::Okay;
use tokio_redis::ToRedisArgs;
use tokio_redis::Value;

fn data(bytes: &[u8]) -> Value {
    Value::Data(bytes.to_vec())
}

fn kind_of<T: std::fmt::Debug>(r: Result<T, tokio_redis::Error>) -> ErrorKind {
    r.unwrap_err().kind
}

#[test]
fn scalars_are_one_argument() {
    assert_eq!("abc".to_redis_args(), vec![b"abc".to_vec()]);
    assert!("abc".is_single_arg());
    assert_eq!("h\u{e9}".to_string().to_redis_args(), vec![vec![b'h', 0xc3, 0xa9]]);
    assert!(String::new().is_single_arg());
    assert_eq!(vec![1u8, 2, 3].to_redis_args(), vec![vec![1u8, 2, 3]]);
    assert!(vec![1u8, 2, 3].is_single_arg());
    assert_eq!((-7i64).to_redis_args(), vec![b"-7".to_vec()]);
    assert!(5u64.is_single_arg());
    assert_eq!(i32::MIN.to_redis_args(), vec![b"-2147483648".to_vec()]);
    assert_eq!(u32::MAX.to_redis_args(), vec![b"4294967295".to_vec()]);
    assert_eq!(12usize.to_redis_args(), vec![b"12".to_vec()]);
}

#[test]
fn sequences_are_many_arguments_whatever_their_length() {
    let three = vec![1i64, 22, -3];
    assert_eq!(three.to_redis_args(), vec![b"1".to_vec(), b"22".to_vec(), b"-3".to_vec()]);
    assert!(!three.is_single_arg());
    assert!(!vec!["one".to_string()].is_single_arg());
    assert!(!Vec::<String>::new().is_single_arg());
    assert_eq!(Vec::<String>::new().to_redis_args(), Vec::<Vec<u8>>::new());
}

#[test]
fn nested_sequences_are_flattened_in_order() {
    let nested = vec![vec!["a", "b"], vec![], vec!["c"]];
    assert_eq!(nested.to_redis_args(), vec![b"a".to_vec(), b"b".to_vec(), b"c".to_vec()]);
}

#[test]
fn integers_decode_from_integer_replies_only() {
    assert_eq!(i64::from_redis_value(&Value::Int(-5)).unwrap(), -5);
    assert_eq!(u64::from_redis_value(&Value::Int(5)).unwrap(), 5);
    assert_eq!(i32::from_redis_value(&Value::Int(-2147483648)).unwrap(), i32::MIN);
    assert_eq!(u32::from_redis_value(&Value::Int(4294967295)).unwrap(), u32::MAX);
    assert_eq!(usize::from_redis_value(&Value::Int(9)).unwrap(), 9);
    assert_eq!(kind_of(i64::from_redis_value(&data(b"5"))), ErrorKind::ConversionError);
    assert_eq!(
        kind_of(i64::from_redis_value(&Value::Status("5".to_string()))),
        ErrorKind::ConversionError
    );
}

#[test]
fn integers_out_of_the_range_of_the_type_are_mismatches() {
    assert_eq!(kind_of(u64::from_redis_value(&Value::Int(-1))), ErrorKind::ConversionError);
    assert_eq!(kind_of(u32::from_redis_value(&Value::Int(-1))), ErrorKind::ConversionError);
    assert_eq!(
        kind_of(u32::from_redis_value(&Value::Int(4294967296))),
        ErrorKind::ConversionError
    );
    assert_eq!(
        kind_of(i32::from_redis_value(&Value::Int(2147483648))),
        ErrorKind::ConversionError
    );
    assert_eq!(
        kind_of(i32::from_redis_value(&Value::Int(-2147483649))),
        ErrorKind::ConversionError
    );
    assert_eq!(kind_of(usize::from_redis_value(&Value::Int(-1))), ErrorKind::ConversionError);
}

#[test]
fn text_and_bytes_decode_from_byte_strings_only() {
    assert_eq!(String::from_redis_value(&data(b"hello")).unwrap(), "hello");
    assert_eq!(String::from_redis_value(&data(&[b'h', 0xc3, 0xa9])).unwrap(), "h\u{e9}");
    assert_eq!(Vec::<u8>::from_redis_value(&data(b"\x00\xff")).unwrap(), vec![0u8, 255]);
    assert_eq!(kind_of(String::from_redis_value(&Value::Int(1))), ErrorKind::ConversionError);
    assert_eq!(
        kind_of(String::from_redis_value(&Value::Status("x".to_string()))),
        ErrorKind::ConversionError
    );
    assert_eq!(kind_of(Vec::<u8>::from_redis_value(&Value::Int(1))), ErrorKind::ConversionError);
}

#[test]
fn text_must_be_utf8() {
    assert_eq!(kind_of(String::from_redis_value(&data(b"\xff"))), ErrorKind::ConversionError);
}

#[test]
fn nil_is_an_absent_optional() {
    assert_eq!(Option::<String>::from_redis_value(&Value::Nil).unwrap(), None);
    assert_eq!(Option::<i64>::from_redis_value(&Value::Nil).unwrap(), None);
    assert_eq!(Option::<Vec<String>>::from_redis_value(&Value::Nil).unwrap(), None);
}

#[test]
fn nil_is_no_scalar() {
    assert_eq!(kind_of(String::from_redis_value(&Value::Nil)), ErrorKind::ConversionError);
    assert_eq!(kind_of(i64::from_redis_value(&Value::Nil)), ErrorKind::ConversionError);
    assert_eq!(kind_of(u64::from_redis_value(&Value::Nil)), ErrorKind::ConversionError);
    assert_eq!(kind_of(Vec::<u8>::from_redis_value(&Value::Nil)), ErrorKind::ConversionError);
    assert_eq!(kind_of(Okay::from_redis_value(&Value::Nil)), ErrorKind::ConversionError);
    assert_eq!(kind_of(Vec::<String>::from_redis_value(&Value::Nil)), ErrorKind::ConversionError);
}

#[test]
fn a_present_optional_decodes_what_it_holds() {
    assert_eq!(Option::<i64>::from_redis_value(&Value::Int(3)).unwrap(), Some(3));
    assert_eq!(
        Option::<String>::from_redis_value(&data(b"v")).unwrap(),
        Some("v".to_string())
    );
    assert_eq!(
        kind_of(Option::<i64>::from_redis_value(&data(b"v"))),
        ErrorKind::ConversionError
    );
}

#[test]
fn sequences_decode_item_by_item() {
    let reply = Value::Bulk(vec![data(b"a"), data(b"b"), data(b"")]);
    assert_eq!(
        Vec::<String>::from_redis_value(&reply).unwrap(),
        vec!["a".to_string(), "b".to_string(), String::new()]
    );
    assert_eq!(
        Vec::<i64>::from_redis_value(&Value::Bulk(Vec::new())).unwrap(),
        Vec::<i64>::new()
    );
}

#[test]
fn one_item_of_another_shape_fails_the_sequence() {
    let reply = Value::Bulk(vec![Value::Int(1), data(b"x"), Value::Int(3)]);
    assert_eq!(kind_of(Vec::<i64>::from_redis_value(&reply)), ErrorKind::ConversionError);
}

#[test]
fn a_bare_byte_string_is_a_sequence_of_one() {
    assert_eq!(
        Vec::<String>::from_redis_value(&data(b"only")).unwrap(),
        vec!["only".to_string()]
    );
    assert_eq!(
        Vec::<Vec<u8>>::from_redis_value(&data(b"only")).unwrap(),
        vec![b"only".to_vec()]
    );
    assert_eq!(kind_of(Vec::<i64>::from_redis_value(&data(b"1"))), ErrorKind::ConversionError);
    assert_eq!(kind_of(Vec::<i64>::from_redis_value(&Value::Int(1))), ErrorKind::ConversionError);
}

#[test]
fn sequences_of_optionals_and_of_sequences() {
    let reply = Value::Bulk(vec![data(b"a"), Value::Nil]);
    assert_eq!(
        Vec::<Option<String>>::from_redis_value(&reply).unwrap(),
        vec![Some("a".to_string()), None]
    );
    let nested = Value::Bulk(vec![Value::Bulk(vec![Value::Int(1), Value::Int(2)]), Value::Bulk(vec![])]);
    assert_eq!(
        Vec::<Vec<i64>>::from_redis_value(&nested).unwrap(),
        vec![vec![1, 2], vec![]]
    );
}

#[test]
fn the_acknowledgement_is_the_status_ok() {
    assert_eq!(Okay::from_redis_value(&Value::Status("OK".to_string())).unwrap(), Okay);
    assert_eq!(
        kind_of(Okay::from_redis_value(&Value::Status("ok".to_string()))),
        ErrorKind::ConversionError
    );
    assert_eq!(
        kind_of(Okay::from_redis_value(&Value::Status("OK ".to_string()))),
        ErrorKind::ConversionError
    );
    assert_eq!(
        kind_of(Okay::from_redis_value(&Value::Status("QUEUED".to_string()))),
        ErrorKind::ConversionError
    );
    assert_eq!(kind_of(Okay::from_redis_value(&data(b"OK"))), ErrorKind::ConversionError);
    assert_eq!(
        Option::<Okay>::from_redis_value(&Value::Status("OK".to_string())).unwrap(),
        Some(Okay)
    );
    assert_eq!(Option::<Okay>::from_redis_value(&Value::Nil).unwrap(), None);
}

#[test]
fn echoed_text_and_bytes_come_back() {
    for text in ["", "v", "two words", "h\u{e9}llo \u{4e16}\u{754c}", "a\r\nb"] {
        let sent = text.to_string();
        let args = sent.to_redis_args();
        assert_eq!(args.len(), 1);
        assert_eq!(String::from_redis_value(&Value::Data(args[0].clone())).unwrap(), sent);
    }
    let bytes = vec![0u8, 13, 10, 255, 36];
    let args = bytes.to_redis_args();
    assert_eq!(Vec::<u8>::from_redis_value(&Value::Data(args[0].clone())).unwrap(), bytes);
}

#[test]
fn an_echoed_sequence_comes_back() {
    let sent = vec!["a".to_string(), String::new(), "c d".to_string()];
    let echo = Value::Bulk(sent.to_redis_args().into_iter().map(Value::Data).collect());
    assert_eq!(Vec::<String>::from_redis_value(&echo).unwrap(), sent);
}

#[test]
fn an_integer_comes_back_as_an_integer_reply() {
    for n in [0i64, -1, 42, i64::MAX, i64::MIN] {
        let args = n.to_redis_args();
        let mut frame = b":".to_vec();
        frame.extend_from_slice(&args[0]);
        frame.extend_from_slice(b"\r\n");
        match tokio_redis::parse(&frame) {
            tokio_redis::ParseResult::Done(value, consumed) => {
                assert_eq!(consumed, frame.len());
                assert_eq!(i64::from_redis_value(&value).unwrap(), n);
            }
            other => panic!("no reply: {:?}", other),
        }
    }
}
