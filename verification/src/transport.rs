//! The pipelining transport.
//!
//! The protocol has no request identifiers: the server answers in the order
//! in which it was asked. The transport therefore keeps the tickets of the
//! requests in flight in a queue, and every whole reply that it reads
//! resolves the ticket at the front. A reply that is no reply ends the
//! connection: every ticket still in the queue fails, and so does every
//! later submission.
//!
//! The transport does no I/O. Its driver writes out what
//! [`RedisTransport::take_outgoing`] hands over, passes what it reads to
//! [`RedisTransport::receive`], and reports a failed socket with
//! [`RedisTransport::fail`].

use crate::cmd::encode_command;
use crate::cmd::Cmd;
use crate::parser::parse_at;
use crate::parser::spec_parse;
use crate::parser::ParseResult;
use crate::parser::Parsed;
use crate::queue::issued_in_order;
use crate::queue::next_ticket;
use crate::queue::TicketQueue;
use crate::text::copy_range;
use crate::text::push_bytes;
use crate::value::Error;
use crate::value::ErrorKind;
use crate::value::Reply;
use crate::value::Value;
use vstd::prelude::*;

verus! {

/// Where a connection stands.
#[derive(Debug, Clone, Copy, PartialEq, Eq, Structural)]
pub enum State {
    /// Open, with no request in flight.
    Idle,
    /// Open, with at least one request in flight.
    Active,
    /// Ended, by a failure or by a shutdown. Nothing leaves this state.
    Closed,
}

/// What a request came to, in contracts: the content of a reply, or the kind
/// and text of an error.
pub type Outcome = Result<Reply, (ErrorKind, Seq<char>)>;

/// The content of a [`Resolution`].
pub struct Resolved {
    pub ticket: u64,
    pub outcome: Outcome,
}

/// The end of one request: its ticket, and the reply or the error.
#[derive(Debug)]
pub struct Resolution {
    pub ticket: u64,
    pub outcome: Result<Value, Error>,
}

/// The content of what a request came to.
pub open spec fn outcome_view(outcome: Result<Value, Error>) -> Outcome {
    match outcome {
        Ok(value) => Ok(value@),
        Err(error) => Err(error@),
    }
}

impl View for Resolution {
    type V = Resolved;

    open spec fn view(&self) -> Resolved {
        Resolved { ticket: self.ticket, outcome: outcome_view(self.outcome) }
    }
}

/// The contents of a list of resolutions.
pub open spec fn resolutions_view(list: Seq<Resolution>) -> Seq<Resolved> {
    list.map_values(|r: Resolution| r@)
}

/// What a reply means for the request that it answers: an error reply fails
/// that request, any other reply is its result.
pub open spec fn outcome_of(reply: Reply) -> Outcome {
    match reply {
        Reply::ServerError(text) => Err((ErrorKind::ServerError, text)),
        _ => Ok(reply),
    }
}

/// The error of a connection on which the server sent what is no reply, or
/// a reply that nothing had asked for.
pub open spec fn protocol_failure() -> (ErrorKind, Seq<char>) {
    (ErrorKind::ProtocolError, "malformed reply"@)
}

/// The error of a request on a closed connection.
pub open spec fn closed_failure() -> (ErrorKind, Seq<char>) {
    (ErrorKind::ConnectionClosed, "connection closed"@)
}

/// Every ticket of `pending`, in order, failed with `error`.
pub open spec fn fail_all(pending: Seq<u64>, error: (ErrorKind, Seq<char>)) -> Seq<Resolved> {
    Seq::new(pending.len(), |i: int| Resolved { ticket: pending[i], outcome: Err(error) })
}

/// What reading a buffer comes to: the requests resolved, the bytes and the
/// tickets left over, and whether the connection failed.
pub struct Drained {
    pub resolved: Seq<Resolved>,
    pub unread: Seq<u8>,
    pub pending: Seq<u64>,
    pub failed: bool,
}

/// `tail`, after the resolutions `first`.
pub open spec fn drained_after(first: Seq<Resolved>, tail: Drained) -> Drained {
    Drained {
        resolved: first + tail.resolved,
        unread: tail.unread,
        pending: tail.pending,
        failed: tail.failed,
    }
}

/// The failure of a connection with `pending` in flight.
pub open spec fn drained_failure(pending: Seq<u64>) -> Drained {
    Drained {
        resolved: fail_all(pending, protocol_failure()),
        unread: Seq::empty(),
        pending: Seq::empty(),
        failed: true,
    }
}

/// Reads replies from `buf` for as long as whole replies are there. Each
/// reply resolves the oldest ticket of `pending`. Bytes that are no reply,
/// and a reply while no ticket is in flight, fail the connection and every
/// ticket left.
pub open spec fn drain(buf: Seq<u8>, pending: Seq<u64>) -> Drained
    decreases buf.len(),
{
    match spec_parse(buf) {
        Parsed::NeedMoreData => Drained {
            resolved: Seq::empty(),
            unread: buf,
            pending: pending,
            failed: false,
        },
        Parsed::ParseError => drained_failure(pending),
        Parsed::Done(reply, consumed) => if pending.len() > 0 && 0 < consumed <= buf.len() {
            drained_after(
                seq![Resolved { ticket: pending[0], outcome: outcome_of(reply) }],
                drain(buf.skip(consumed), pending.skip(1)),
            )
        } else {
            drained_failure(pending)
        },
    }
}

/// The state of a transport, in contracts.
pub struct TransportModel {
    /// Received bytes that are not yet a whole reply.
    pub unread: Seq<u8>,
    /// Request frames that the driver has not yet taken.
    pub unsent: Seq<u8>,
    /// The tickets of the requests in flight, oldest first.
    pub pending: Seq<u64>,
    /// The ticket of the next request.
    pub next: u64,
    /// Whether the connection has ended.
    pub closed: bool,
}

impl TransportModel {
    /// A new connection.
    pub open spec fn fresh() -> TransportModel {
        TransportModel {
            unread: Seq::empty(),
            unsent: Seq::empty(),
            pending: Seq::empty(),
            next: 0,
            closed: false,
        }
    }

    /// What holds of every transport: the tickets in flight were issued in
    /// order, the bytes kept from earlier reads are no whole reply, and a
    /// closed connection holds nothing.
    pub open spec fn wf(self) -> bool {
        &&& issued_in_order(self.pending, self.next)
        &&& spec_parse(self.unread) is NeedMoreData
        &&& self.closed ==> self.unread.len() == 0 && self.unsent.len() == 0 && self.pending.len()
            == 0
    }

    /// Where the connection stands.
    pub open spec fn state(self) -> State {
        if self.closed {
            State::Closed
        } else if self.pending.len() == 0 {
            State::Idle
        } else {
            State::Active
        }
    }

    /// The connection after the request `frame` was submitted. A closed
    /// connection takes nothing.
    pub open spec fn submit(self, frame: Seq<u8>) -> TransportModel {
        if self.closed {
            self
        } else {
            TransportModel {
                unread: self.unread,
                unsent: self.unsent + frame,
                pending: self.pending.push(self.next),
                next: next_ticket(self.next),
                closed: false,
            }
        }
    }

    /// The connection after the driver took the frames to send.
    pub open spec fn flush(self) -> TransportModel {
        TransportModel {
            unread: self.unread,
            unsent: Seq::empty(),
            pending: self.pending,
            next: self.next,
            closed: self.closed,
        }
    }

    /// The connection after it has ended.
    pub open spec fn close(self) -> TransportModel {
        TransportModel {
            unread: Seq::empty(),
            unsent: Seq::empty(),
            pending: Seq::empty(),
            next: self.next,
            closed: true,
        }
    }

    /// The connection after `bytes` were received.
    pub open spec fn receive(self, bytes: Seq<u8>) -> TransportModel {
        let drained = drain(self.unread + bytes, self.pending);
        if self.closed {
            self
        } else if drained.failed {
            self.close()
        } else {
            TransportModel {
                unread: drained.unread,
                unsent: self.unsent,
                pending: drained.pending,
                next: self.next,
                closed: false,
            }
        }
    }

    /// The requests that receiving `bytes` resolves, in order.
    pub open spec fn resolved_by(self, bytes: Seq<u8>) -> Seq<Resolved> {
        if self.closed {
            Seq::empty()
        } else {
            drain(self.unread + bytes, self.pending).resolved
        }
    }

    /// The requests that a failure of the connection with `error` resolves.
    pub open spec fn failed_by(self, error: (ErrorKind, Seq<char>)) -> Seq<Resolved> {
        fail_all(self.pending, error)
    }
}

/// The outcome of the request that `value` answers.
pub fn outcome(value: Value) -> (r: Result<Value, Error>)
    ensures
        outcome_view(r) == outcome_of(value@),
{
    match value {
        Value::ServerError(text) => Err(Error::new(ErrorKind::ServerError, text)),
        other => Ok(other),
    }
}

/// Fails every ticket of `queue` with `error`, oldest first.
fn fail_queue(queue: &mut TicketQueue, out: &mut Vec<Resolution>, error: &Error)
    ensures
        old(queue).wf() ==> final(queue).wf(),
        final(queue).tickets().len() == 0,
        final(queue).next() == old(queue).next(),
        resolutions_view(final(out)@) == resolutions_view(old(out)@) + fail_all(
            old(queue).tickets(),
            error@,
        ),
{
    let ghost all = queue.tickets();
    let ghost first = resolutions_view(out@);
    assert(first + fail_all(all, error@).take(0) =~= first);
    loop
        invariant
            old(queue).wf() ==> queue.wf(),
            queue.next() == old(queue).next(),
            all == old(queue).tickets(),
            first == resolutions_view(old(out)@),
            queue.tickets().len() <= all.len(),
            queue.tickets() == all.skip(all.len() - queue.tickets().len()),
            resolutions_view(out@) == first + fail_all(all, error@).take(
                all.len() - queue.tickets().len(),
            ),
        decreases queue.tickets().len(),
    {
        let ghost done = all.len() - queue.tickets().len();
        let ghost before = out@;
        match queue.take_front() {
            None => {
                assert(fail_all(all, error@).take(done) =~= fail_all(all, error@));
                return ;
            },
            Some(ticket) => {
                let failed = Resolution { ticket, outcome: Err(error.clone()) };
                out.push(failed);
                assert(queue.tickets() =~= all.skip(done + 1));
                assert(resolutions_view(before.push(failed)) =~= resolutions_view(before).push(
                    failed@,
                ));
                assert(first + fail_all(all, error@).take(done + 1) =~= (first + fail_all(
                    all,
                    error@,
                ).take(done)).push(failed@));
            },
        }
    }
}

/// One connection to a server, without its socket.
#[derive(Debug)]
pub struct RedisTransport {
    rd: Vec<u8>,
    wr: Vec<u8>,
    queue: TicketQueue,
    closed: bool,
}

impl View for RedisTransport {
    type V = TransportModel;

    closed spec fn view(&self) -> TransportModel {
        TransportModel {
            unread: self.rd@,
            unsent: self.wr@,
            pending: self.queue.tickets(),
            next: self.queue.next(),
            closed: self.closed,
        }
    }
}

impl RedisTransport {
    /// The transport of a new connection.
    pub fn new() -> (t: RedisTransport)
        ensures
            t@ == TransportModel::fresh(),
            t@.wf(),
    {
        RedisTransport { rd: Vec::new(), wr: Vec::new(), queue: TicketQueue::new(), closed: false }
    }

    /// Where the connection stands.
    pub fn state(&self) -> (s: State)
        ensures
            s == self@.state(),
    {
        if self.closed {
            State::Closed
        } else if self.queue.len() == 0 {
            State::Idle
        } else {
            State::Active
        }
    }

    /// The number of requests in flight.
    pub fn in_flight(&self) -> (n: usize)
        ensures
            n == self@.pending.len(),
    {
        self.queue.len()
    }

    /// Submits a command: its frame goes behind the frames still to be
    /// sent, whole, and its ticket to the back of the queue. The ticket
    /// comes back with the reply. On a closed connection the submission
    /// fails at once and changes nothing.
    pub fn submit(&mut self, cmd: Cmd) -> (r: Result<u64, Error>)
        ensures
            final(self)@ == old(self)@.submit(encode_command(cmd@)),
            old(self)@.wf() ==> final(self)@.wf(),
            match r {
                Ok(ticket) => !old(self)@.closed && ticket == old(self)@.next,
                Err(error) => old(self)@.closed && error@ == closed_failure(),
            },
    {
        if self.closed {
            return Err(Error::with_text(ErrorKind::ConnectionClosed, "connection closed"));
        }
        let frame = cmd.finish();
        push_bytes(&mut self.wr, frame.as_slice());
        let ticket = self.queue.issue();
        Ok(ticket)
    }

    /// Hands over the frames that are to be written to the socket, in the
    /// order of their submission.
    pub fn take_outgoing(&mut self) -> (bytes: Vec<u8>)
        ensures
            bytes@ == old(self)@.unsent,
            final(self)@ == old(self)@.flush(),
            old(self)@.wf() ==> final(self)@.wf(),
    {
        let mut bytes: Vec<u8> = Vec::new();
        core::mem::swap(&mut self.wr, &mut bytes);
        bytes
    }

    /// Takes in bytes that were read from the socket and gives the requests
    /// that they resolve, oldest first. Bytes that do not yet make a whole
    /// reply are kept for the next call.
    pub fn receive(&mut self, bytes: &[u8]) -> (out: Vec<Resolution>)
        ensures
            final(self)@ == old(self)@.receive(bytes@),
            old(self)@.wf() ==> final(self)@.wf(),
            resolutions_view(out@) == old(self)@.resolved_by(bytes@),
    {
        let mut out: Vec<Resolution> = Vec::new();
        assert(resolutions_view(out@) =~= Seq::<Resolved>::empty());
        if self.closed {
            return out;
        }
        push_bytes(&mut self.rd, bytes);
        let ghost whole = self.rd@;
        let ghost pending = self.queue.tickets();
        let mut pos: usize = 0;
        assert(whole.skip(0) =~= whole);
        assert(drained_after(resolutions_view(out@), drain(whole, pending)) == drain(
            whole,
            pending,
        )) by {
            assert(Seq::<Resolved>::empty() + drain(whole, pending).resolved =~= drain(
                whole,
                pending,
            ).resolved);
        }
        loop
            invariant
                !self.closed,
                old(self)@.wf() ==> self.queue.wf(),
                self.rd@ == whole,
                self.wr@ == old(self).wr@,
                self.queue.next() == old(self).queue.next(),
                whole == old(self).rd@ + bytes@,
                pending == old(self).queue.tickets(),
                !old(self).closed,
                pos <= self.rd.len(),
                drain(whole, pending) == drained_after(
                    resolutions_view(out@),
                    drain(whole.skip(pos as int), self.queue.tickets()),
                ),
            decreases self.rd.len() - pos,
        {
            let ghost here = whole.skip(pos as int);
            let ghost before = out@;
            let ghost waiting = self.queue.tickets();
            match parse_at(self.rd.as_slice(), pos) {
                ParseResult::NeedMoreData => {
                    let rest = copy_range(self.rd.as_slice(), pos, self.rd.len());
                    assert(rest@ =~= here);
                    self.rd = rest;
                    assert(resolutions_view(before) + Seq::<Resolved>::empty() =~= resolutions_view(
                        before,
                    ));
                    return out;
                },
                ParseResult::ParseError => {
                    self.end(&mut out, &Error::with_text(ErrorKind::ProtocolError, "malformed reply"));
                    return out;
                },
                ParseResult::Done(value, consumed) => {
                    match self.queue.take_front() {
                        None => {
                            self.end(
                                &mut out,
                                &Error::with_text(ErrorKind::ProtocolError, "malformed reply"),
                            );
                            return out;
                        },
                        Some(ticket) => {
                            let resolution = Resolution { ticket, outcome: outcome(value) };
                            out.push(resolution);
                            pos = pos + consumed;
                            proof {
                                let tail = drain(here.skip(consumed as int), waiting.skip(1));
                                assert(here.skip(consumed as int) =~= whole.skip(pos as int));
                                assert(resolutions_view(before.push(resolution))
                                    =~= resolutions_view(before).push(resolution@));
                                assert(resolutions_view(before) + (seq![resolution@]
                                    + tail.resolved) =~= resolutions_view(before).push(
                                    resolution@,
                                ) + tail.resolved);
                            }
                        },
                    }
                },
            }
        }
    }

    /// Ends the connection after its socket failed with `error`: every
    /// request in flight fails with that error, oldest first. On a closed
    /// connection nothing happens.
    pub fn fail(&mut self, error: Error) -> (out: Vec<Resolution>)
        ensures
            final(self)@ == old(self)@.close(),
            old(self)@.wf() ==> final(self)@.wf(),
            resolutions_view(out@) == old(self)@.failed_by(error@),
    {
        let mut out: Vec<Resolution> = Vec::new();
        assert(resolutions_view(out@) =~= Seq::<Resolved>::empty());
        assert(Seq::<Resolved>::empty() + fail_all(self.queue.tickets(), error@) =~= fail_all(
            self.queue.tickets(),
            error@,
        ));
        self.end(&mut out, &error);
        out
    }

    /// Ends the connection on purpose: every request in flight fails as one
    /// made on a closed connection.
    pub fn shutdown(&mut self) -> (out: Vec<Resolution>)
        ensures
            final(self)@ == old(self)@.close(),
            old(self)@.wf() ==> final(self)@.wf(),
            resolutions_view(out@) == old(self)@.failed_by(closed_failure()),
    {
        self.fail(Error::with_text(ErrorKind::ConnectionClosed, "connection closed"))
    }

    /// Closes the connection and fails what is in flight with `error`.
    fn end(&mut self, out: &mut Vec<Resolution>, error: &Error)
        ensures
            final(self)@ == old(self)@.close(),
            old(self)@.wf() ==> final(self)@.wf(),
            resolutions_view(final(out)@) == resolutions_view(old(out)@) + fail_all(
                old(self)@.pending,
                error@,
            ),
    {
        fail_queue(&mut self.queue, out, error);
        self.rd.clear();
        self.wr.clear();
        self.closed = true;
        assert(self.queue.tickets() =~= Seq::<u64>::empty());
    }
}

} // verus!
