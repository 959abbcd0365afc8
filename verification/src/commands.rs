//! The commands of the named operations.

use crate::cmd::Cmd;
use crate::convert::ToRedisArgs;
use crate::decimal::int_text;
use vstd::prelude::*;
use vstd::utf8::encode_utf8;

verus! {

/// The argument that names a verb.
pub open spec fn verb(name: &str) -> Seq<Seq<u8>> {
    seq![encode_utf8(name@)]
}

/// The command that looks up `key`: `GET` for one key, `MGET` for a
/// sequence of keys.
pub open spec fn get_request<K: ToRedisArgs>(key: K) -> Seq<Seq<u8>> {
    if key.single() {
        verb("GET") + key.args()
    } else {
        verb("MGET") + key.args()
    }
}

/// The command that writes `value` under `key`.
pub open spec fn set_request<K: ToRedisArgs, V: ToRedisArgs>(key: K, value: V) -> Seq<Seq<u8>> {
    verb("SET") + key.args() + value.args()
}

/// The command that lists the keys that match `pattern`.
pub open spec fn keys_request<K: ToRedisArgs>(pattern: K) -> Seq<Seq<u8>> {
    verb("KEYS") + pattern.args()
}

/// The command that writes `value` under `key` for `seconds` seconds.
pub open spec fn set_ex_request<K: ToRedisArgs, V: ToRedisArgs>(
    key: K,
    value: V,
    seconds: usize,
) -> Seq<Seq<u8>> {
    verb("SETEX") + key.args() + seq![int_text(seconds as int)] + value.args()
}

/// The command that writes `value` under `key` unless the key exists.
pub open spec fn setnx_request<K: ToRedisArgs, V: ToRedisArgs>(key: K, value: V) -> Seq<Seq<u8>> {
    verb("SETNX") + key.args() + value.args()
}

/// The command that counts `key` up by one.
pub open spec fn incr_request<K: ToRedisArgs>(key: K) -> Seq<Seq<u8>> {
    verb("INCR") + key.args()
}

/// The command that looks up `key`: `GET` for one key, `MGET` where the key
/// says that it is a sequence.
pub fn get<K: ToRedisArgs>(key: K) -> (cmd: Cmd)
    ensures
        cmd@ == get_request(key),
{
    let mut cmd = Cmd::new();
    if key.is_single_arg() {
        cmd.arg("GET").arg(key);
    } else {
        cmd.arg("MGET").arg(key);
    }
    assert(cmd@ =~= get_request(key));
    cmd
}

/// The command that writes `value` under `key`.
pub fn set<K: ToRedisArgs, V: ToRedisArgs>(key: K, value: V) -> (cmd: Cmd)
    ensures
        cmd@ == set_request(key, value),
{
    let mut cmd = Cmd::new();
    cmd.arg("SET").arg(key).arg(value);
    assert(cmd@ =~= set_request(key, value));
    cmd
}

/// The command that lists the keys that match `pattern`.
pub fn keys<K: ToRedisArgs>(pattern: K) -> (cmd: Cmd)
    ensures
        cmd@ == keys_request(pattern),
{
    let mut cmd = Cmd::new();
    cmd.arg("KEYS").arg(pattern);
    assert(cmd@ =~= keys_request(pattern));
    cmd
}

/// The command that writes `value` under `key`, to expire after `seconds`
/// seconds.
pub fn set_ex<K: ToRedisArgs, V: ToRedisArgs>(key: K, value: V, seconds: usize) -> (cmd: Cmd)
    ensures
        cmd@ == set_ex_request(key, value, seconds),
{
    let mut cmd = Cmd::new();
    cmd.arg("SETEX").arg(key).arg(seconds).arg(value);
    assert(cmd@ =~= set_ex_request(key, value, seconds));
    cmd
}

/// The command that writes `value` under `key` unless the key exists.
pub fn setnx<K: ToRedisArgs, V: ToRedisArgs>(key: K, value: V) -> (cmd: Cmd)
    ensures
        cmd@ == setnx_request(key, value),
{
    let mut cmd = Cmd::new();
    cmd.arg("SETNX").arg(key).arg(value);
    assert(cmd@ =~= setnx_request(key, value));
    cmd
}

/// The command that counts `key` up by one.
pub fn incr<K: ToRedisArgs>(key: K) -> (cmd: Cmd)
    ensures
        cmd@ == incr_request(key),
{
    let mut cmd = Cmd::new();
    cmd.arg("INCR").arg(key);
    assert(cmd@ =~= incr_request(key));
    cmd
}

} // verus!
