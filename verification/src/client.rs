//! The named operations of a client.
//!
//! Each operation builds its command, submits it to the transport and hands
//! back a [`Pending`] that knows the type of the result. When the
//! transport resolves the ticket, [`Pending::resolve`] decodes the reply.

use crate::cmd::encode_command;
use crate::cmd::Cmd;
use crate::commands;
use crate::commands::get_request;
use crate::commands::incr_request;
use crate::commands::keys_request;
use crate::commands::set_ex_request;
use crate::commands::set_request;
use crate::commands::setnx_request;
use crate::convert::FromRedisValue;
use crate::convert::ToRedisArgs;
use crate::transport::closed_failure;
use crate::transport::RedisTransport;
use crate::transport::TransportModel;
use crate::value::Error;
use crate::value::ErrorKind;
use crate::value::Okay;
use crate::value::Value;
use core::marker::PhantomData;
use vstd::prelude::*;

verus! {

/// Turns what a request came to into the result of its operation: a reply
/// is decoded as a `V`, and an error is passed on as it is.
pub fn decode_outcome<V: FromRedisValue>(outcome: Result<Value, Error>) -> (r: Result<V, Error>)
    ensures
        match outcome {
            Ok(value) => match V::decode(value@) {
                Some(m) => r is Ok && r->Ok_0.model() == m,
                None => r is Err && r->Err_0.kind == ErrorKind::ConversionError,
            },
            Err(error) => r == Err::<V, Error>(error),
        },
{
    match outcome {
        Ok(value) => V::from_redis_value(&value),
        Err(error) => Err(error),
    }
}

/// A request in flight whose reply will be decoded as a `V`.
#[derive(Debug)]
pub struct Pending<V> {
    ticket: u64,
    marker: PhantomData<V>,
}

impl<V: FromRedisValue> Pending<V> {
    /// The ticket of the request.
    pub closed spec fn spec_ticket(&self) -> u64 {
        self.ticket
    }

    /// The ticket under which the transport will resolve the request.
    #[verifier::when_used_as_spec(spec_ticket)]
    pub fn ticket(&self) -> (ticket: u64)
        ensures
            ticket == self.spec_ticket(),
    {
        self.ticket
    }

    /// Turns what the request came to into the result of the operation: a
    /// reply is decoded as a `V`, and an error is passed on as it is.
    pub fn resolve(self, outcome: Result<Value, Error>) -> (r: Result<V, Error>)
        ensures
            match outcome {
                Ok(value) => match V::decode(value@) {
                    Some(m) => r is Ok && r->Ok_0.model() == m,
                    None => r is Err && r->Err_0.kind == ErrorKind::ConversionError,
                },
                Err(error) => r == Err::<V, Error>(error),
            },
    {
        decode_outcome(outcome)
    }
}

/// Whether submitting the command `args` to `before` gave `after` and the
/// result `r`: an open connection takes the frame and issues its next
/// ticket, a closed one refuses and stays as it is.
pub open spec fn submitted<V: FromRedisValue>(
    before: TransportModel,
    args: Seq<Seq<u8>>,
    after: TransportModel,
    r: Result<Pending<V>, Error>,
) -> bool {
    &&& after == before.submit(encode_command(args))
    &&& before.wf() ==> after.wf()
    &&& match r {
        Ok(pending) => !before.closed && pending.spec_ticket() == before.next,
        Err(error) => before.closed && error@ == closed_failure(),
    }
}

/// A client on one connection.
#[derive(Debug)]
pub struct Client {
    /// The connection. Its driver moves the bytes.
    pub transport: RedisTransport,
}

impl View for Client {
    type V = TransportModel;

    open spec fn view(&self) -> TransportModel {
        self.transport@
    }
}

impl Client {
    /// A client on the connection of `transport`.
    pub fn new(transport: RedisTransport) -> (client: Client)
        ensures
            client@ == transport@,
    {
        Client { transport }
    }

    /// Submits a command whose reply is wanted as it comes. The ticket is
    /// that under which the transport will resolve the request.
    pub fn call(&mut self, req: Cmd) -> (r: Result<u64, Error>)
        ensures
            final(self)@ == old(self)@.submit(encode_command(req@)),
            old(self)@.wf() ==> final(self)@.wf(),
            match r {
                Ok(ticket) => !old(self)@.closed && ticket == old(self)@.next,
                Err(error) => old(self)@.closed && error@ == closed_failure(),
            },
    {
        self.transport.submit(req)
    }

    /// Submits a command whose reply is to be decoded as a `V`.
    pub fn send<V: FromRedisValue>(&mut self, req: Cmd) -> (r: Result<Pending<V>, Error>)
        ensures
            submitted(old(self)@, req@, final(self)@, r),
    {
        match self.transport.submit(req) {
            Ok(ticket) => Ok(Pending { ticket, marker: PhantomData }),
            Err(error) => Err(error),
        }
    }

    /// Get the value of a key. If the key is a sequence this becomes an
    /// `MGET`.
    pub fn get<K: ToRedisArgs, V: FromRedisValue>(&mut self, key: K) -> (r: Result<
        Pending<V>,
        Error,
    >)
        ensures
            submitted(old(self)@, get_request(key), final(self)@, r),
    {
        self.send(commands::get(key))
    }

    /// Set the string value of a key.
    pub fn set<K: ToRedisArgs, V: ToRedisArgs>(&mut self, key: K, value: V) -> (r: Result<
        Pending<Option<Okay>>,
        Error,
    >)
        ensures
            submitted(old(self)@, set_request(key, value), final(self)@, r),
    {
        self.send(commands::set(key, value))
    }

    /// List the keys that match a pattern.
    pub fn keys<K: ToRedisArgs, V: FromRedisValue>(&mut self, key: K) -> (r: Result<
        Pending<Vec<V>>,
        Error,
    >)
        ensures
            submitted(old(self)@, keys_request(key), final(self)@, r),
    {
        self.send(commands::keys(key))
    }

    /// Set the value of a key, to expire after `seconds` seconds.
    pub fn set_ex<K: ToRedisArgs, V: ToRedisArgs>(
        &mut self,
        key: K,
        value: V,
        seconds: usize,
    ) -> (r: Result<Pending<Option<Okay>>, Error>)
        ensures
            submitted(old(self)@, set_ex_request(key, value, seconds), final(self)@, r),
    {
        self.send(commands::set_ex(key, value, seconds))
    }

    /// Set the string value of a key if it does not exist.
    pub fn setnx<K: ToRedisArgs, V: ToRedisArgs>(&mut self, key: K, value: V) -> (r: Result<
        Pending<Option<Okay>>,
        Error,
    >)
        ensures
            submitted(old(self)@, setnx_request(key, value), final(self)@, r),
    {
        self.send(commands::setnx(key, value))
    }

    /// Increment the value of an integer key, from 0 if it doesn't exist.
    pub fn incr<K: ToRedisArgs, V: FromRedisValue>(&mut self, key: K) -> (r: Result<
        Pending<V>,
        Error,
    >)
        ensures
            submitted(old(self)@, incr_request(key), final(self)@, r),
    {
        self.send(commands::incr(key))
    }
}

} // verus!
