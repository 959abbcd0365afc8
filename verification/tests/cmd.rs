use tokio_redis::commands;
use tokio_redis::parse;
use tokio_redis::Cmd;
use tokio_redis::ParseResult;
use tokio_redis::Value;

#[test]
fn an_empty_command_is_an_empty_sequence() {
    assert_eq!(Cmd::new().finish(), b"*0\r\n".to_vec());
}

#[test]
fn arguments_are_framed_in_call_order() {
    let mut cmd = Cmd::new();
    cmd.arg("SET").arg("k").arg("v");
    assert_eq!(cmd.len(), 3);
    assert_eq!(cmd.finish(), b"*3\r\n$3\r\nSET\r\n$1\r\nk\r\n$1\r\nv\r\n".to_vec());
}

#[test]
fn arguments_may_hold_any_byte() {
    let mut cmd = Cmd::new();
    cmd.arg("SET").arg(b"a\r\nb".to_vec()).arg(vec![0u8, 255u8]);
    assert_eq!(
        cmd.finish(),
        b"*3\r\n$3\r\nSET\r\n$4\r\na\r\nb\r\n$2\r\n\x00\xff\r\n".to_vec()
    );
}

#[test]
fn a_sequence_adds_one_argument_for_each_item() {
    let mut cmd = Cmd::new();
    cmd.arg("MGET").arg(vec!["a".to_string(), "bc".to_string(), String::new()]);
    assert_eq!(cmd.len(), 4);
    assert_eq!(
        cmd.finish(),
        b"*4\r\n$4\r\nMGET\r\n$1\r\na\r\n$2\r\nbc\r\n$0\r\n\r\n".to_vec()
    );
}

#[test]
fn an_empty_sequence_adds_nothing() {
    let mut cmd = Cmd::new();
    cmd.arg("DEL").arg(Vec::<String>::new());
    assert_eq!(cmd.finish(), b"*1\r\n$3\r\nDEL\r\n".to_vec());
}

#[test]
fn integers_are_sent_as_decimal_text() {
    let mut cmd = Cmd::new();
    cmd.arg("X").arg(-12i64).arg(0u32).arg(18446744073709551615u64).arg(7usize).arg(-5i32);
    assert_eq!(
        cmd.finish(),
        b"*6\r\n$1\r\nX\r\n$3\r\n-12\r\n$1\r\n0\r\n$20\r\n18446744073709551615\r\n$1\r\n7\r\n$2\r\n-5\r\n"
            .to_vec()
    );
}

#[test]
fn lengths_of_two_digits_and_more() {
    let mut cmd = Cmd::new();
    for _ in 0..11 {
        cmd.arg("0123456789ab");
    }
    let frame = cmd.finish();
    assert!(frame.starts_with(b"*11\r\n$12\r\n0123456789ab\r\n"));
    assert_eq!(frame.len(), 5 + 11 * 19);
}

#[test]
fn a_request_frame_parses_to_its_arguments() {
    let mut cmd = Cmd::new();
    cmd.arg("SET").arg(b"k\r\n".to_vec()).arg(42i64);
    let frame = cmd.finish();
    let expected = Value::Bulk(vec![
        Value::Data(b"SET".to_vec()),
        Value::Data(b"k\r\n".to_vec()),
        Value::Data(b"42".to_vec()),
    ]);
    assert_eq!(parse(&frame), ParseResult::Done(expected, frame.len()));
}

#[test]
fn get_picks_the_verb_by_the_kind_of_key() {
    assert_eq!(commands::get("k").finish(), b"*2\r\n$3\r\nGET\r\n$1\r\nk\r\n".to_vec());
    assert_eq!(
        commands::get(vec!["a".to_string(), "b".to_string()]).finish(),
        b"*3\r\n$4\r\nMGET\r\n$1\r\na\r\n$1\r\nb\r\n".to_vec()
    );
}

#[test]
fn a_sequence_of_one_key_is_still_a_batched_lookup() {
    assert_eq!(
        commands::get(vec!["a".to_string()]).finish(),
        b"*2\r\n$4\r\nMGET\r\n$1\r\na\r\n".to_vec()
    );
}

#[test]
fn the_other_commands() {
    assert_eq!(
        commands::set("k", "v").finish(),
        b"*3\r\n$3\r\nSET\r\n$1\r\nk\r\n$1\r\nv\r\n".to_vec()
    );
    assert_eq!(commands::keys("*").finish(), b"*2\r\n$4\r\nKEYS\r\n$1\r\n*\r\n".to_vec());
    assert_eq!(
        commands::set_ex("k", "v", 30).finish(),
        b"*4\r\n$5\r\nSETEX\r\n$1\r\nk\r\n$2\r\n30\r\n$1\r\nv\r\n".to_vec()
    );
    assert_eq!(
        commands::setnx("k", 1i64).finish(),
        b"*3\r\n$5\r\nSETNX\r\n$1\r\nk\r\n$1\r\n1\r\n".to_vec()
    );
    assert_eq!(commands::incr("n").finish(), b"*2\r\n$4\r\nINCR\r\n$1\r\nn\r\n".to_vec());
}
