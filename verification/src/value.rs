//! The values that a server sends, and the errors of this library.

use vstd::prelude::*;

verus! {

/// One reply of the server.
#[derive(Debug, PartialEq, Eq)]
pub enum Value {
    /// The absent value.
    Nil,
    /// A signed integer.
    Int(i64),
    /// A byte string; any byte may occur in it.
    Data(Vec<u8>),
    /// A sequence of replies, which may hold further sequences.
    Bulk(Vec<Value>),
    /// A short text that reports success.
    Status(String),
    /// A text with which the server refuses one request.
    ServerError(String),
}

/// The mathematical content of a [`Value`].
pub enum Reply {
    Nil,
    Int(i64),
    Data(Seq<u8>),
    Bulk(Seq<Reply>),
    Status(Seq<char>),
    ServerError(Seq<char>),
}

impl View for Value {
    type V = Reply;

    open spec fn view(&self) -> Reply
        decreases self, 0nat,
    {
        match self {
            Value::Nil => Reply::Nil,
            Value::Int(n) => Reply::Int(*n),
            Value::Data(bytes) => Reply::Data(bytes@),
            Value::Bulk(items) => Reply::Bulk(replies_upto(*items, items@.len())),
            Value::Status(text) => Reply::Status(text@),
            Value::ServerError(text) => Reply::ServerError(text@),
        }
    }
}

/// The contents of the first `k` of `items`, in their order.
pub open spec fn replies_upto(items: Vec<Value>, k: nat) -> Seq<Reply>
    decreases items, k,
{
    if k == 0 || k > items@.len() {
        Seq::empty()
    } else {
        replies_upto(items, (k - 1) as nat).push(items[k - 1]@)
    }
}

/// The contents of a sequence of values, item by item.
pub open spec fn replies_of(items: Seq<Value>) -> Seq<Reply> {
    items.map_values(|v: Value| v@)
}

proof fn lemma_replies_upto(items: Vec<Value>, k: nat)
    requires
        k <= items@.len(),
    ensures
        replies_upto(items, k) == replies_of(items@.take(k as int)),
    decreases k,
{
    if k > 0 {
        lemma_replies_upto(items, (k - 1) as nat);
        let shorter = replies_of(items@.take(k - 1));
        assert(replies_upto(items, k) == shorter.push(items@[k - 1]@));
        assert(shorter.push(items@[k - 1]@).len() == k);
        assert(replies_of(items@.take(k as int)).len() == k);
        assert forall|i: int| 0 <= i < k implies replies_of(items@.take(k as int))[i]
            == shorter.push(items@[k - 1]@)[i] by {
            if i < k - 1 {
                assert(shorter[i] == items@.take(k - 1)[i]@);
            }
        }
        assert(shorter.push(items@[k - 1]@) =~= replies_of(items@.take(k as int)));
    } else {
        assert(replies_upto(items, k) =~= replies_of(items@.take(k as int)));
    }
}

/// A sequence value holds the contents of its items, in their order.
pub proof fn lemma_bulk_view(items: Vec<Value>)
    ensures
        Value::Bulk(items)@ == Reply::Bulk(replies_of(items@)),
{
    lemma_replies_upto(items, items@.len());
    assert(items@.take(items@.len() as int) =~= items@);
}

/// What went wrong.
#[derive(Debug, Clone, Copy, PartialEq, Eq, Structural)]
pub enum ErrorKind {
    /// The connection failed while reading or writing.
    IoError,
    /// The server sent bytes that are no reply.
    ProtocolError,
    /// The server refused the request.
    ServerError,
    /// The reply does not have the shape of the type asked for.
    ConversionError,
    /// The request was made on a connection that is closed.
    ConnectionClosed,
}

/// An error of this library: its kind, and a text for the reader.
#[derive(Debug)]
pub struct Error {
    pub kind: ErrorKind,
    pub detail: String,
}

impl Error {
    /// An error of the given kind with the given text.
    pub fn new(kind: ErrorKind, detail: String) -> (e: Error)
        ensures
            e.kind == kind,
            e.detail == detail,
    {
        Error { kind, detail }
    }

    /// An error of the given kind without a text.
    pub fn bare(kind: ErrorKind) -> (e: Error)
        ensures
            e.kind == kind,
            e.detail@ == Seq::<char>::empty(),
    {
        Error { kind, detail: String::new() }
    }

    /// An error of the given kind with a copy of the given text.
    pub fn with_text(kind: ErrorKind, text: &str) -> (e: Error)
        ensures
            e.kind == kind,
            e.detail@ == text@,
    {
        Error { kind, detail: text.to_owned() }
    }

    /// The kind of this error.
    pub fn kind(&self) -> (kind: ErrorKind)
        ensures
            kind == self.kind,
    {
        self.kind
    }

    /// Whether this error ends the connection it occurred on.
    pub open spec fn spec_is_fatal(&self) -> bool {
        self.kind == ErrorKind::IoError || self.kind == ErrorKind::ProtocolError || self.kind
            == ErrorKind::ConnectionClosed
    }

    /// Whether this error ends the connection it occurred on: a failure of
    /// the connection does, a refusal or a mismatch of one request does not.
    #[verifier::when_used_as_spec(spec_is_fatal)]
    pub fn is_fatal(&self) -> (fatal: bool)
        ensures
            fatal == self.spec_is_fatal(),
    {
        match self.kind {
            ErrorKind::IoError => true,
            ErrorKind::ProtocolError => true,
            ErrorKind::ConnectionClosed => true,
            ErrorKind::ServerError => false,
            ErrorKind::ConversionError => false,
        }
    }
}

impl Clone for Error {
    fn clone(&self) -> (e: Error)
        ensures
            e == *self,
    {
        Error { kind: self.kind, detail: self.detail.clone() }
    }
}

impl View for Error {
    type V = (ErrorKind, Seq<char>);

    open spec fn view(&self) -> (ErrorKind, Seq<char>) {
        (self.kind, self.detail@)
    }
}

/// What a request comes to: the server's reply, or the error that ended it.
pub type RedisResult<T> = Result<T, Error>;

/// The acknowledgement `OK`.
#[derive(Debug, Clone, Copy, PartialEq, Eq, Structural)]
pub struct Okay;

} // verus!
