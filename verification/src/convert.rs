//! Conversions between host values and wire values.
//!
//! [`ToRedisArgs`] turns a host value into the arguments of a command and
//! says whether the value is one argument or a sequence of them.
//! [`FromRedisValue`] rebuilds a host value from a reply, and fails with
//! [`ErrorKind::ConversionError`] where the reply has another shape.

use crate::decimal::int_text;
use crate::decimal::push_decimal;
use crate::decimal::push_int;
use crate::text::copy_range;
use crate::text::string_from_utf8;
use crate::text::text_bytes;
use crate::value::lemma_bulk_view;
use crate::value::replies_of;
use crate::value::Error;
use crate::value::ErrorKind;
use crate::value::Okay;
use crate::value::Reply;
use crate::value::Value;
use vstd::prelude::*;
use vstd::utf8::decode_utf8;
use vstd::utf8::encode_utf8;
use vstd::utf8::encode_utf8_decode_utf8;
use vstd::utf8::is_ascii_chars;
use vstd::utf8::is_ascii_chars_encode_utf8;
use vstd::utf8::valid_utf8;

verus! {

/// The byte strings that a list of arguments holds.
pub open spec fn args_view(args: Seq<Vec<u8>>) -> Seq<Seq<u8>> {
    args.map_values(|a: Vec<u8>| a@)
}

/// A host value that can be sent as the argument, or arguments, of a command.
pub trait ToRedisArgs {
    /// The arguments that this value stands for, in their order.
    spec fn args(&self) -> Seq<Seq<u8>>;

    /// Whether this value is one argument, and not a sequence of them.
    spec fn single(&self) -> bool;

    /// The encoded arguments.
    fn to_redis_args(&self) -> (out: Vec<Vec<u8>>)
        ensures
            args_view(out@) == self.args(),
    ;

    /// Whether this value is one argument. A sequence says no, whatever its
    /// length: the answer is never taken from the number of arguments.
    fn is_single_arg(&self) -> (single: bool)
        ensures
            single == self.single(),
    ;
}

/// The one-argument list that holds `bytes`.
pub fn one_arg(bytes: Vec<u8>) -> (out: Vec<Vec<u8>>)
    ensures
        args_view(out@) == seq![bytes@],
{
    let mut out: Vec<Vec<u8>> = Vec::new();
    out.push(bytes);
    assert(args_view(out@) =~= seq![bytes@]);
    out
}

impl ToRedisArgs for String {
    open spec fn args(&self) -> Seq<Seq<u8>> {
        seq![encode_utf8(self@)]
    }

    open spec fn single(&self) -> bool {
        true
    }

    fn to_redis_args(&self) -> (out: Vec<Vec<u8>>) {
        one_arg(text_bytes(self.as_str()))
    }

    fn is_single_arg(&self) -> (single: bool) {
        true
    }
}

impl<'a> ToRedisArgs for &'a str {
    open spec fn args(&self) -> Seq<Seq<u8>> {
        seq![encode_utf8(self@)]
    }

    open spec fn single(&self) -> bool {
        true
    }

    fn to_redis_args(&self) -> (out: Vec<Vec<u8>>) {
        one_arg(text_bytes(*self))
    }

    fn is_single_arg(&self) -> (single: bool) {
        true
    }
}

impl ToRedisArgs for Vec<u8> {
    open spec fn args(&self) -> Seq<Seq<u8>> {
        seq![self@]
    }

    open spec fn single(&self) -> bool {
        true
    }

    fn to_redis_args(&self) -> (out: Vec<Vec<u8>>) {
        let bytes = copy_range(self.as_slice(), 0, self.len());
        assert(bytes@ =~= self@);
        one_arg(bytes)
    }

    fn is_single_arg(&self) -> (single: bool) {
        true
    }
}

impl ToRedisArgs for i64 {
    open spec fn args(&self) -> Seq<Seq<u8>> {
        seq![int_text(*self as int)]
    }

    open spec fn single(&self) -> bool {
        true
    }

    fn to_redis_args(&self) -> (out: Vec<Vec<u8>>) {
        let mut text: Vec<u8> = Vec::new();
        push_int(&mut text, *self);
        assert(text@ =~= int_text(*self as int));
        one_arg(text)
    }

    fn is_single_arg(&self) -> (single: bool) {
        true
    }
}

impl ToRedisArgs for i32 {
    open spec fn args(&self) -> Seq<Seq<u8>> {
        seq![int_text(*self as int)]
    }

    open spec fn single(&self) -> bool {
        true
    }

    fn to_redis_args(&self) -> (out: Vec<Vec<u8>>) {
        let mut text: Vec<u8> = Vec::new();
        push_int(&mut text, *self as i64);
        assert(text@ =~= int_text(*self as int));
        one_arg(text)
    }

    fn is_single_arg(&self) -> (single: bool) {
        true
    }
}

impl ToRedisArgs for u64 {
    open spec fn args(&self) -> Seq<Seq<u8>> {
        seq![int_text(*self as int)]
    }

    open spec fn single(&self) -> bool {
        true
    }

    fn to_redis_args(&self) -> (out: Vec<Vec<u8>>) {
        let mut text: Vec<u8> = Vec::new();
        push_decimal(&mut text, *self);
        assert(text@ =~= int_text(*self as int));
        one_arg(text)
    }

    fn is_single_arg(&self) -> (single: bool) {
        true
    }
}

impl ToRedisArgs for u32 {
    open spec fn args(&self) -> Seq<Seq<u8>> {
        seq![int_text(*self as int)]
    }

    open spec fn single(&self) -> bool {
        true
    }

    fn to_redis_args(&self) -> (out: Vec<Vec<u8>>) {
        let mut text: Vec<u8> = Vec::new();
        push_decimal(&mut text, *self as u64);
        assert(text@ =~= int_text(*self as int));
        one_arg(text)
    }

    fn is_single_arg(&self) -> (single: bool) {
        true
    }
}

impl ToRedisArgs for usize {
    open spec fn args(&self) -> Seq<Seq<u8>> {
        seq![int_text(*self as int)]
    }

    open spec fn single(&self) -> bool {
        true
    }

    fn to_redis_args(&self) -> (out: Vec<Vec<u8>>) {
        let mut text: Vec<u8> = Vec::new();
        push_decimal(&mut text, *self as u64);
        assert(text@ =~= int_text(*self as int));
        one_arg(text)
    }

    fn is_single_arg(&self) -> (single: bool) {
        true
    }
}

/// The arguments of the items of a sequence, one item after the other.
pub open spec fn flat_args<T: ToRedisArgs>(items: Seq<T>) -> Seq<Seq<u8>>
    decreases items.len(),
{
    if items.len() == 0 {
        Seq::empty()
    } else {
        flat_args(items.drop_last()) + items.last().args()
    }
}

impl<T: ToRedisArgs> ToRedisArgs for Vec<T> {
    open spec fn args(&self) -> Seq<Seq<u8>> {
        flat_args(self@)
    }

    open spec fn single(&self) -> bool {
        false
    }

    fn to_redis_args(&self) -> (out: Vec<Vec<u8>>) {
        let mut out: Vec<Vec<u8>> = Vec::new();
        let mut i: usize = 0;
        assert(self@.take(0) =~= Seq::<T>::empty());
        assert(args_view(out@) =~= Seq::<Seq<u8>>::empty());
        while i < self.len()
            invariant
                i <= self.len(),
                args_view(out@) == flat_args(self@.take(i as int)),
            decreases self.len() - i,
        {
            let mut more = self[i].to_redis_args();
            assert(self@.take(i + 1).drop_last() =~= self@.take(i as int));
            assert(args_view(out@ + more@) =~= args_view(out@) + args_view(more@));
            out.append(&mut more);
            i += 1;
        }
        assert(self@.take(i as int) =~= self@);
        out
    }

    fn is_single_arg(&self) -> (single: bool) {
        false
    }
}

/// A host value that can be rebuilt from a reply.
pub trait FromRedisValue: Sized {
    /// What a value of this type stands for in contracts.
    type Model;

    /// What this value stands for.
    spec fn model(&self) -> Self::Model;

    /// What `reply` decodes to, where it has the shape of this type.
    spec fn decode(reply: Reply) -> Option<Self::Model>;

    /// The host value that `v` holds, or a conversion error.
    fn from_redis_value(v: &Value) -> (r: Result<Self, Error>)
        ensures
            match Self::decode(v@) {
                Some(m) => r is Ok && r->Ok_0.model() == m,
                None => r is Err && r->Err_0.kind == ErrorKind::ConversionError,
            },
    ;
}

/// The error of a reply that has another shape than the type asked for.
pub fn mismatch() -> (e: Error)
    ensures
        e.kind == ErrorKind::ConversionError,
        e.detail@ == "response type not compatible"@,
{
    Error::with_text(ErrorKind::ConversionError, "response type not compatible")
}

impl FromRedisValue for i64 {
    type Model = i64;

    open spec fn model(&self) -> i64 {
        *self
    }

    open spec fn decode(reply: Reply) -> Option<i64> {
        match reply {
            Reply::Int(n) => Some(n),
            _ => None,
        }
    }

    fn from_redis_value(v: &Value) -> (r: Result<i64, Error>) {
        match v {
            Value::Int(n) => Ok(*n),
            _ => Err(mismatch()),
        }
    }
}

impl FromRedisValue for i32 {
    type Model = i32;

    open spec fn model(&self) -> i32 {
        *self
    }

    open spec fn decode(reply: Reply) -> Option<i32> {
        match reply {
            Reply::Int(n) => if i32::MIN <= n <= i32::MAX {
                Some(n as i32)
            } else {
                None
            },
            _ => None,
        }
    }

    fn from_redis_value(v: &Value) -> (r: Result<i32, Error>) {
        match v {
            Value::Int(n) => if -0x8000_0000 <= *n && *n <= 0x7fff_ffff {
                Ok(*n as i32)
            } else {
                Err(mismatch())
            },
            _ => Err(mismatch()),
        }
    }
}

impl FromRedisValue for u64 {
    type Model = u64;

    open spec fn model(&self) -> u64 {
        *self
    }

    open spec fn decode(reply: Reply) -> Option<u64> {
        match reply {
            Reply::Int(n) => if n >= 0 {
                Some(n as u64)
            } else {
                None
            },
            _ => None,
        }
    }

    fn from_redis_value(v: &Value) -> (r: Result<u64, Error>) {
        match v {
            Value::Int(n) => if *n >= 0 {
                Ok(*n as u64)
            } else {
                Err(mismatch())
            },
            _ => Err(mismatch()),
        }
    }
}

impl FromRedisValue for u32 {
    type Model = u32;

    open spec fn model(&self) -> u32 {
        *self
    }

    open spec fn decode(reply: Reply) -> Option<u32> {
        match reply {
            Reply::Int(n) => if 0 <= n <= u32::MAX {
                Some(n as u32)
            } else {
                None
            },
            _ => None,
        }
    }

    fn from_redis_value(v: &Value) -> (r: Result<u32, Error>) {
        match v {
            Value::Int(n) => if 0 <= *n && *n <= 0xffff_ffff {
                Ok(*n as u32)
            } else {
                Err(mismatch())
            },
            _ => Err(mismatch()),
        }
    }
}

impl FromRedisValue for usize {
    type Model = usize;

    open spec fn model(&self) -> usize {
        *self
    }

    open spec fn decode(reply: Reply) -> Option<usize> {
        match reply {
            Reply::Int(n) => if 0 <= n <= usize::MAX {
                Some(n as usize)
            } else {
                None
            },
            _ => None,
        }
    }

    fn from_redis_value(v: &Value) -> (r: Result<usize, Error>) {
        match v {
            Value::Int(n) => if *n >= 0 && (*n as u64) <= (usize::MAX as u64) {
                Ok(*n as usize)
            } else {
                Err(mismatch())
            },
            _ => Err(mismatch()),
        }
    }
}

impl FromRedisValue for String {
    type Model = Seq<char>;

    open spec fn model(&self) -> Seq<char> {
        self@
    }

    open spec fn decode(reply: Reply) -> Option<Seq<char>> {
        match reply {
            Reply::Data(bytes) => if valid_utf8(bytes) {
                Some(decode_utf8(bytes))
            } else {
                None
            },
            _ => None,
        }
    }

    fn from_redis_value(v: &Value) -> (r: Result<String, Error>) {
        match v {
            Value::Data(bytes) => {
                let copy = copy_range(bytes.as_slice(), 0, bytes.len());
                assert(copy@ =~= bytes@);
                match string_from_utf8(copy) {
                    Some(text) => Ok(text),
                    None => Err(mismatch()),
                }
            },
            _ => Err(mismatch()),
        }
    }
}

impl FromRedisValue for Vec<u8> {
    type Model = Seq<u8>;

    open spec fn model(&self) -> Seq<u8> {
        self@
    }

    open spec fn decode(reply: Reply) -> Option<Seq<u8>> {
        match reply {
            Reply::Data(bytes) => Some(bytes),
            _ => None,
        }
    }

    fn from_redis_value(v: &Value) -> (r: Result<Vec<u8>, Error>) {
        match v {
            Value::Data(bytes) => {
                let copy = copy_range(bytes.as_slice(), 0, bytes.len());
                assert(copy@ =~= bytes@);
                Ok(copy)
            },
            _ => Err(mismatch()),
        }
    }
}

/// The text of the acknowledgement: `OK`.
pub open spec fn ok_text() -> Seq<char> {
    seq!['O', 'K']
}

/// `OK` is the one text whose UTF-8 encoding is the two bytes `O` and `K`.
pub proof fn lemma_ok_bytes(text: Seq<char>)
    ensures
        text == ok_text() <==> encode_utf8(text) == seq![0x4fu8, 0x4bu8],
{
    let ok = ok_text();
    assert(is_ascii_chars(ok));
    is_ascii_chars_encode_utf8(ok);
    assert(encode_utf8(ok) =~= seq![0x4fu8, 0x4bu8]);
    encode_utf8_decode_utf8(ok);
    encode_utf8_decode_utf8(text);
}

impl FromRedisValue for Okay {
    type Model = ();

    open spec fn model(&self) -> () {
        ()
    }

    open spec fn decode(reply: Reply) -> Option<()> {
        match reply {
            Reply::Status(text) => if text == ok_text() {
                Some(())
            } else {
                None
            },
            _ => None,
        }
    }

    fn from_redis_value(v: &Value) -> (r: Result<Okay, Error>) {
        match v {
            Value::Status(text) => {
                let bytes = text.as_str().as_bytes();
                proof {
                    lemma_ok_bytes(text@);
                }
                if bytes.len() == 2 && bytes[0] == 0x4f && bytes[1] == 0x4b {
                    assert(bytes@ =~= seq![0x4fu8, 0x4bu8]);
                    Ok(Okay)
                } else {
                    Err(mismatch())
                }
            },
            _ => Err(mismatch()),
        }
    }
}

impl<T: FromRedisValue> FromRedisValue for Option<T> {
    type Model = Option<T::Model>;

    open spec fn model(&self) -> Option<T::Model> {
        match self {
            Some(x) => Some(x.model()),
            None => None,
        }
    }

    open spec fn decode(reply: Reply) -> Option<Option<T::Model>> {
        match reply {
            Reply::Nil => Some(None),
            _ => match T::decode(reply) {
                Some(m) => Some(Some(m)),
                None => None,
            },
        }
    }

    fn from_redis_value(v: &Value) -> (r: Result<Option<T>, Error>) {
        match v {
            Value::Nil => Ok(None),
            _ => match T::from_redis_value(v) {
                Ok(x) => Ok(Some(x)),
                Err(e) => Err(e),
            },
        }
    }
}

/// What the items of a sequence stand for, item by item.
pub open spec fn models_of<T: FromRedisValue>(items: Seq<T>) -> Seq<T::Model> {
    Seq::new(items.len(), |i: int| items[i].model())
}

/// Whether every one of `items` has the shape of `T`.
pub open spec fn all_decode<T: FromRedisValue>(items: Seq<Reply>) -> bool {
    forall|i: int| 0 <= i < items.len() ==> (#[trigger] T::decode(items[i])) is Some
}

/// What `items` decode to, item by item.
pub open spec fn decode_each<T: FromRedisValue>(items: Seq<Reply>) -> Seq<T::Model> {
    Seq::new(items.len(), |i: int| T::decode(items[i])->Some_0)
}

impl<T: FromRedisValue> FromRedisValue for Vec<T> {
    type Model = Seq<T::Model>;

    open spec fn model(&self) -> Seq<T::Model> {
        models_of(self@)
    }

    open spec fn decode(reply: Reply) -> Option<Seq<T::Model>> {
        match reply {
            Reply::Bulk(items) => if all_decode::<T>(items) {
                Some(decode_each::<T>(items))
            } else {
                None
            },
            Reply::Data(_) => match T::decode(reply) {
                Some(m) => Some(seq![m]),
                None => None,
            },
            _ => None,
        }
    }

    fn from_redis_value(v: &Value) -> (r: Result<Vec<T>, Error>) {
        match v {
            Value::Bulk(items) => {
                proof {
                    lemma_bulk_view(*items);
                }
                let ghost replies = replies_of(items@);
                let mut out: Vec<T> = Vec::new();
                let mut i: usize = 0;
                while i < items.len()
                    invariant
                        i <= items.len(),
                        out@.len() == i,
                        replies == replies_of(items@),
                        v@ == Reply::Bulk(replies),
                        forall|j: int|
                            0 <= j < i ==> (#[trigger] T::decode(replies[j])) == Some(
                                out@[j].model(),
                            ),
                    decreases items.len() - i,
                {
                    match T::from_redis_value(&items[i]) {
                        Ok(x) => {
                            out.push(x);
                        },
                        Err(e) => {
                            assert(T::decode(replies[i as int]) is None);
                            return Err(e);
                        },
                    }
                    i += 1;
                }
                assert(models_of(out@) =~= decode_each::<T>(replies));
                Ok(out)
            },
            Value::Data(_) => match T::from_redis_value(v) {
                Ok(x) => {
                    let mut out: Vec<T> = Vec::new();
                    out.push(x);
                    assert(models_of(out@) =~= seq![x.model()]);
                    Ok(out)
                },
                Err(e) => Err(e),
            },
            _ => Err(mismatch()),
        }
    }
}

} // verus!
