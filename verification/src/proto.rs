//! The protocol of a connection.

use crate::transport::RedisTransport;
use crate::transport::TransportModel;
use vstd::prelude::*;

verus! {

/// The Redis protocol, as a value that makes the transport of a connection.
#[derive(Debug, Clone, Copy, PartialEq, Eq, Structural)]
pub struct RedisProto;

impl RedisProto {
    /// The transport for a connection that was just opened: nothing read,
    /// nothing to send, no request in flight.
    pub fn bind_transport(&self) -> (transport: RedisTransport)
        ensures
            transport@ == TransportModel::fresh(),
            transport@.wf(),
    {
        RedisTransport::new()
    }
}

} // verus!
