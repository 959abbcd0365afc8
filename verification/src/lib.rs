//! A client for the Redis wire protocol that performs no I/O of its own.
//!
//! The crate holds the protocol's logic: the reply model and its resumable
//! parser, the command encoder, the conversions between host values and wire
//! values, and the pipelining state machine that matches replies to requests
//! in submission order. A driver owns the socket, hands received bytes to the
//! transport and writes out what the transport has queued.

pub mod client;
pub mod cmd;
pub mod cmd_laws;
pub mod commands;
pub mod convert;
pub mod convert_laws;
pub mod decimal;
pub mod frames;
pub mod parser;
pub mod parser_laws;
pub mod proto;
pub mod queue;
pub mod text;
pub mod transport;
pub mod transport_laws;
pub mod value;

pub use client::Client;
pub use client::Pending;
pub use cmd::Cmd;
pub use convert::FromRedisValue;
pub use convert::ToRedisArgs;
pub use parser::parse;
pub use parser::ParseResult;
pub use proto::RedisProto;
pub use transport::RedisTransport;
pub use transport::Resolution;
pub use transport::State;
pub use value::Error;
pub use value::ErrorKind;
pub use value::Okay;
pub use value::RedisResult;
pub use value::Value;
