use tokio_redis::client::decode_outcome;
use tokio_redis::Client;
use tokio_redis::Cmd;
use tokio_redis::Error;
use tokio_redis::ErrorKind;
use tokio_redis::Okay;
use tokio_redis::Pending;
use tokio_redis::RedisProto;
use tokio_redis::Resolution;
use tokio_redis::State;
use tokio_redis::Value;

fn connect() -> Client {
    Client::new(RedisProto.bind_transport())
}

fn one(mut out: Vec<Resolution>) -> Resolution {
    assert_eq!(out.len(), 1);
    out.remove(0)
}

#[test]
fn a_write_and_then_a_lookup() {
    let mut client = connect();
    let write = client.set("k", "v").unwrap();
    assert_eq!(
        client.transport.take_outgoing(),
        b"*3\r\n$3\r\nSET\r\n$1\r\nk\r\n$1\r\nv\r\n".to_vec()
    );
    let resolution = one(client.transport.receive(b"+OK\r\n"));
    assert_eq!(resolution.ticket, write.ticket());
    assert_eq!(write.resolve(resolution.outcome).unwrap(), Some(Okay));

    let lookup: Pending<String> = client.get("k").unwrap();
    assert_eq!(client.transport.take_outgoing(), b"*2\r\n$3\r\nGET\r\n$1\r\nk\r\n".to_vec());
    let resolution = one(client.transport.receive(b"$1\r\nv\r\n"));
    assert_eq!(resolution.ticket, lookup.ticket());
    assert_eq!(lookup.resolve(resolution.outcome).unwrap(), "v");
}

#[test]
fn a_lookup_of_two_keys() {
    let mut client = connect();
    let keys = vec!["x".to_string(), "y".to_string()];
    let lookup: Pending<Vec<Option<String>>> = client.get(keys).unwrap();
    assert_eq!(
        client.transport.take_outgoing(),
        b"*3\r\n$4\r\nMGET\r\n$1\r\nx\r\n$1\r\ny\r\n".to_vec()
    );
    let resolution = one(client.transport.receive(b"*2\r\n$1\r\na\r\n$-1\r\n"));
    assert_eq!(
        lookup.resolve(resolution.outcome).unwrap(),
        vec![Some("a".to_string()), None]
    );
}

#[test]
fn a_missing_key_is_an_absent_optional_and_no_text() {
    let mut client = connect();
    let optional: Pending<Option<String>> = client.get("k").unwrap();
    let plain: Pending<String> = client.get("k").unwrap();
    let mut out = client.transport.receive(b"$-1\r\n*-1\r\n");
    let second = out.remove(1);
    let first = out.remove(0);
    assert_eq!(optional.resolve(first.outcome).unwrap(), None);
    assert_eq!(plain.resolve(second.outcome).unwrap_err().kind, ErrorKind::ConversionError);
    assert_eq!(client.transport.state(), State::Idle);
}

#[test]
fn a_mismatch_fails_one_request_only() {
    let mut client = connect();
    let wrong: Pending<i64> = client.get("k").unwrap();
    let right: Pending<i64> = client.incr("n").unwrap();
    let mut out = client.transport.receive(b"$1\r\nv\r\n:8\r\n");
    let second = out.remove(1);
    let first = out.remove(0);
    assert_eq!(wrong.resolve(first.outcome).unwrap_err().kind, ErrorKind::ConversionError);
    assert_eq!(right.resolve(second.outcome).unwrap(), 8);
    assert_eq!(client.transport.state(), State::Idle);
}

#[test]
fn the_operations_frame_their_commands() {
    let mut client = connect();
    let _: Pending<Vec<String>> = client.keys("user:*").unwrap();
    client.set_ex("k", "v", 60).unwrap();
    client.setnx("k", 5i64).unwrap();
    let _: Pending<i64> = client.incr("n").unwrap();
    let mut expected = Vec::new();
    expected.extend_from_slice(b"*2\r\n$4\r\nKEYS\r\n$6\r\nuser:*\r\n");
    expected.extend_from_slice(b"*4\r\n$5\r\nSETEX\r\n$1\r\nk\r\n$2\r\n60\r\n$1\r\nv\r\n");
    expected.extend_from_slice(b"*3\r\n$5\r\nSETNX\r\n$1\r\nk\r\n$1\r\n5\r\n");
    expected.extend_from_slice(b"*2\r\n$4\r\nINCR\r\n$1\r\nn\r\n");
    assert_eq!(client.transport.take_outgoing(), expected);
    assert_eq!(client.transport.in_flight(), 4);
}

#[test]
fn keys_decode_as_a_sequence() {
    let mut client = connect();
    let listing: Pending<Vec<String>> = client.keys("*").unwrap();
    let resolution = one(client.transport.receive(b"*2\r\n$1\r\na\r\n$2\r\nbc\r\n"));
    assert_eq!(
        listing.resolve(resolution.outcome).unwrap(),
        vec!["a".to_string(), "bc".to_string()]
    );
}

#[test]
fn setnx_that_did_not_write_is_absent() {
    let mut client = connect();
    let write = client.setnx("k", "v").unwrap();
    let resolution = one(client.transport.receive(b"$-1\r\n"));
    assert_eq!(write.resolve(resolution.outcome).unwrap(), None);
}

#[test]
fn a_raw_call_gives_the_reply_as_it_came() {
    let mut client = connect();
    let mut cmd = Cmd::new();
    cmd.arg("PING");
    let ticket = client.call(cmd).unwrap();
    let resolution = one(client.transport.receive(b"+PONG\r\n"));
    assert_eq!(resolution.ticket, ticket);
    assert_eq!(resolution.outcome.unwrap(), Value::Status("PONG".to_string()));
}

#[test]
fn an_error_is_passed_on_as_it_is() {
    let mut client = connect();
    let lookup: Pending<String> = client.get("k").unwrap();
    let resolution = one(client.transport.receive(b"-WRONGTYPE no\r\n"));
    let error = lookup.resolve(resolution.outcome).unwrap_err();
    assert_eq!(error.kind, ErrorKind::ServerError);
    assert_eq!(error.detail, "WRONGTYPE no");
    let passed: Result<i64, Error> =
        decode_outcome(Err(Error::with_text(ErrorKind::IoError, "reset")));
    assert_eq!(passed.unwrap_err().detail, "reset");
}

#[test]
fn operations_on_a_closed_connection_fail_at_once() {
    let mut client = connect();
    let first: Pending<String> = client.get("a").unwrap();
    let out = client.transport.receive(b"garbage");
    assert_eq!(out.len(), 1);
    assert_eq!(first.resolve(one(out).outcome).unwrap_err().kind, ErrorKind::ProtocolError);
    assert_eq!(client.get::<_, String>("b").unwrap_err().kind, ErrorKind::ConnectionClosed);
    assert_eq!(client.set("k", "v").unwrap_err().kind, ErrorKind::ConnectionClosed);
    assert_eq!(client.incr::<_, i64>("n").unwrap_err().kind, ErrorKind::ConnectionClosed);
    assert_eq!(client.transport.take_outgoing(), Vec::<u8>::new());
}
