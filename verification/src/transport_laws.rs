//! What holds of the transport whatever is submitted and whatever arrives:
//! replies are matched to requests in the order of submission, however the
//! bytes are cut into reads; no ticket is lost or resolved twice; and a
//! connection that failed stays failed.

use crate::parser::spec_parse;
use crate::parser::Parsed;
use crate::parser_laws::are_frames_of;
use crate::parser_laws::is_frame_of;
use crate::parser_laws::lemma_parse_consumed;
use crate::parser_laws::lemma_parse_ignores_rest;
use crate::queue::lemma_tickets_distinct;
use crate::transport::drain;
use crate::transport::drained_after;
use crate::transport::fail_all;
use crate::transport::outcome_of;
use crate::transport::protocol_failure;
use crate::transport::Resolved;
use crate::transport::State;
use crate::transport::TransportModel;
use crate::value::ErrorKind;
use crate::value::Reply;
use vstd::prelude::*;

verus! {

/// Byte strings one after the other.
pub open spec fn concat(parts: Seq<Seq<u8>>) -> Seq<u8>
    decreases parts.len(),
{
    if parts.len() == 0 {
        Seq::empty()
    } else {
        parts[0] + concat(parts.skip(1))
    }
}

/// The first tickets of `tickets` resolved by `replies`, the i-th ticket by
/// the i-th reply.
pub open spec fn answers(tickets: Seq<u64>, replies: Seq<Reply>) -> Seq<Resolved> {
    Seq::new(
        replies.len(),
        |i: int| Resolved { ticket: tickets[i], outcome: outcome_of(replies[i]) },
    )
}

/// The tickets of a list of resolutions.
pub open spec fn tickets_of(resolved: Seq<Resolved>) -> Seq<u64> {
    Seq::new(resolved.len(), |i: int| resolved[i].ticket)
}

/// The connection after the reads `chunks`, one after the other.
pub open spec fn after_reads(m: TransportModel, chunks: Seq<Seq<u8>>) -> TransportModel
    decreases chunks.len(),
{
    if chunks.len() == 0 {
        m
    } else {
        after_reads(m.receive(chunks[0]), chunks.skip(1))
    }
}

/// The requests that the reads `chunks` resolve, one read after the other.
pub open spec fn resolved_over(m: TransportModel, chunks: Seq<Seq<u8>>) -> Seq<Resolved>
    decreases chunks.len(),
{
    if chunks.len() == 0 {
        Seq::empty()
    } else {
        m.resolved_by(chunks[0]) + resolved_over(m.receive(chunks[0]), chunks.skip(1))
    }
}

/// Reading resolves tickets from the front of the queue and leaves the
/// others as they were: every ticket is either resolved once, in its place,
/// or still in flight. A failure leaves none in flight.
pub proof fn lemma_drain_conserves(buf: Seq<u8>, pending: Seq<u64>)
    ensures
        tickets_of(drain(buf, pending).resolved) + drain(buf, pending).pending == pending,
        drain(buf, pending).failed ==> drain(buf, pending).pending.len() == 0 && drain(
            buf,
            pending,
        ).unread.len() == 0,
    decreases buf.len(),
{
    let d = drain(buf, pending);
    match spec_parse(buf) {
        Parsed::Done(reply, consumed) => {
            if pending.len() > 0 && 0 < consumed <= buf.len() {
                lemma_drain_conserves(buf.skip(consumed), pending.skip(1));
                let tail = drain(buf.skip(consumed), pending.skip(1));
                let first = seq![Resolved { ticket: pending[0], outcome: outcome_of(reply) }];
                assert(d.resolved == first + tail.resolved);
                assert(tickets_of(first + tail.resolved) =~= seq![pending[0]] + tickets_of(
                    tail.resolved,
                ));
                assert(seq![pending[0]] + pending.skip(1) =~= pending);
                assert(tickets_of(d.resolved) + d.pending =~= seq![pending[0]] + (tickets_of(
                    tail.resolved,
                ) + tail.pending));
            } else {
                assert(tickets_of(d.resolved) + d.pending =~= pending);
            }
        },
        _ => {
            assert(tickets_of(d.resolved) + d.pending =~= pending);
        },
    }
}

/// Bytes that arrive later continue where the earlier ones stopped: reading
/// `buf` and `more` together resolves what reading `buf` resolves, and then
/// what reading the rest of `buf` with `more` resolves.
pub proof fn lemma_drain_continues(buf: Seq<u8>, more: Seq<u8>, pending: Seq<u64>)
    ensures
        drain(buf + more, pending) == if drain(buf, pending).failed {
            drain(buf, pending)
        } else {
            drained_after(
                drain(buf, pending).resolved,
                drain(drain(buf, pending).unread + more, drain(buf, pending).pending),
            )
        },
    decreases buf.len(),
{
    let d = drain(buf, pending);
    lemma_parse_ignores_rest(buf, more);
    lemma_parse_consumed(buf);
    match spec_parse(buf) {
        Parsed::NeedMoreData => {
            let whole = drain(buf + more, pending);
            assert(Seq::<Resolved>::empty() + whole.resolved =~= whole.resolved);
        },
        Parsed::ParseError => {},
        Parsed::Done(reply, consumed) => {
            if pending.len() > 0 {
                let first = seq![Resolved { ticket: pending[0], outcome: outcome_of(reply) }];
                let tail = drain(buf.skip(consumed), pending.skip(1));
                assert((buf + more).skip(consumed) =~= buf.skip(consumed) + more);
                lemma_drain_continues(buf.skip(consumed), more, pending.skip(1));
                if !tail.failed {
                    let last = drain(tail.unread + more, tail.pending);
                    assert(first + (tail.resolved + last.resolved) =~= (first + tail.resolved)
                        + last.resolved);
                }
            }
        },
    }
}

/// Whole replies resolve the oldest tickets, the i-th reply the i-th
/// ticket, and what follows them is read as if it had come alone.
pub proof fn lemma_drain_frames(
    frames: Seq<Seq<u8>>,
    replies: Seq<Reply>,
    rest: Seq<u8>,
    pending: Seq<u64>,
)
    requires
        are_frames_of(frames, replies),
        frames.len() <= pending.len(),
    ensures
        drain(concat(frames) + rest, pending) == drained_after(
            answers(pending, replies),
            drain(rest, pending.skip(frames.len() as int)),
        ),
    decreases frames.len(),
{
    let tail = drain(rest, pending.skip(frames.len() as int));
    if frames.len() == 0 {
        assert(concat(frames) + rest =~= rest);
        assert(pending.skip(0) =~= pending);
        assert(answers(pending, replies) + tail.resolved =~= tail.resolved);
    } else {
        let buf = concat(frames) + rest;
        let behind = concat(frames.skip(1)) + rest;
        assert(buf =~= frames[0] + behind);
        assert(is_frame_of(frames[0], replies[0]));
        lemma_parse_ignores_rest(frames[0], behind);
        lemma_parse_consumed(frames[0]);
        assert(buf.skip(frames[0].len() as int) =~= behind);
        assert forall|i: int| 0 <= i < frames.skip(1).len() implies is_frame_of(
            #[trigger] frames.skip(1)[i],
            replies.skip(1)[i],
        ) by {
            assert(is_frame_of(frames[i + 1], replies[i + 1]));
        }
        lemma_drain_frames(frames.skip(1), replies.skip(1), rest, pending.skip(1));
        assert(pending.skip(1).skip(frames.len() - 1) =~= pending.skip(frames.len() as int));
        let first = seq![Resolved { ticket: pending[0], outcome: outcome_of(replies[0]) }];
        assert(first + answers(pending.skip(1), replies.skip(1)) =~= answers(pending, replies));
        assert(first + (answers(pending.skip(1), replies.skip(1)) + tail.resolved) =~= (first
            + answers(pending.skip(1), replies.skip(1))) + tail.resolved);
    }
}

/// Two reads come to what one read of the same bytes comes to: the same
/// requests are resolved in the same order, and the connection is left in
/// the same state.
pub proof fn lemma_receive_in_two(m: TransportModel, a: Seq<u8>, b: Seq<u8>)
    ensures
        m.receive(a).receive(b) == m.receive(a + b),
        m.resolved_by(a) + m.receive(a).resolved_by(b) == m.resolved_by(a + b),
{
    if m.closed {
        assert(m.resolved_by(a) + m.receive(a).resolved_by(b) =~= m.resolved_by(a + b));
    } else {
        let first = drain(m.unread + a, m.pending);
        lemma_drain_continues(m.unread + a, b, m.pending);
        lemma_drain_conserves(m.unread + a, m.pending);
        assert((m.unread + a) + b =~= m.unread + (a + b));
        if first.failed {
            assert(first.resolved + Seq::<Resolved>::empty() =~= first.resolved);
        }
    }
}

/// What reading leaves unread is no whole reply.
pub proof fn lemma_drain_unread(buf: Seq<u8>, pending: Seq<u64>)
    ensures
        spec_parse(drain(buf, pending).unread) is NeedMoreData,
    decreases buf.len(),
{
    match spec_parse(buf) {
        Parsed::Done(reply, consumed) => {
            if pending.len() > 0 && 0 < consumed <= buf.len() {
                lemma_drain_unread(buf.skip(consumed), pending.skip(1));
            }
        },
        _ => {},
    }
}

/// Reading keeps a transport well formed.
pub proof fn lemma_receive_keeps_wf(m: TransportModel, bytes: Seq<u8>)
    requires
        m.wf(),
    ensures
        m.receive(bytes).wf(),
{
    if !m.closed {
        let d = drain(m.unread + bytes, m.pending);
        lemma_drain_unread(m.unread + bytes, m.pending);
        lemma_drain_conserves(m.unread + bytes, m.pending);
        let done = tickets_of(d.resolved);
        assert forall|i: int| 0 <= i < d.pending.len() implies (#[trigger] d.pending[i]) as int
            == (m.next as int - d.pending.len() + i) % 0x1_0000_0000_0000_0000 by {
            assert((done + d.pending)[done.len() + i] == d.pending[i]);
            assert(m.pending[done.len() + i] == d.pending[i]);
        }
    }
}

/// However the bytes are cut into reads, the reads come to what one read
/// of all the bytes comes to.
pub proof fn lemma_receive_in_batches(m: TransportModel, chunks: Seq<Seq<u8>>)
    requires
        m.wf(),
    ensures
        after_reads(m, chunks) == m.receive(concat(chunks)),
        resolved_over(m, chunks) == m.resolved_by(concat(chunks)),
    decreases chunks.len(),
{
    if chunks.len() == 0 {
        lemma_receive_nothing(m);
    } else {
        lemma_receive_keeps_wf(m, chunks[0]);
        lemma_receive_in_batches(m.receive(chunks[0]), chunks.skip(1));
        lemma_receive_in_two(m, chunks[0], concat(chunks.skip(1)));
    }
}

/// A read of no bytes resolves nothing and changes nothing, as long as the
/// bytes kept from earlier reads are no whole reply.
pub proof fn lemma_receive_nothing(m: TransportModel)
    requires
        m.closed || spec_parse(m.unread) is NeedMoreData,
    ensures
        m.receive(Seq::empty()) == m,
        m.resolved_by(Seq::empty()) == Seq::<Resolved>::empty(),
{
    assert(m.unread + Seq::<u8>::empty() =~= m.unread);
}

/// Replies are matched to requests in the order of submission. On a
/// connection with N requests in flight and nothing read yet, the frames of
/// N replies resolve the i-th request with the i-th reply, and leave the
/// connection idle, however the frames are cut into reads.
pub proof fn lemma_fifo(
    m: TransportModel,
    frames: Seq<Seq<u8>>,
    replies: Seq<Reply>,
    chunks: Seq<Seq<u8>>,
)
    requires
        m.wf(),
        !m.closed,
        m.unread.len() == 0,
        are_frames_of(frames, replies),
        frames.len() == m.pending.len(),
        concat(chunks) == concat(frames),
    ensures
        resolved_over(m, chunks) == answers(m.pending, replies),
        after_reads(m, chunks).state() == State::Idle,
        after_reads(m, chunks).unsent == m.unsent,
        after_reads(m, chunks).unread.len() == 0,
{
    lemma_receive_in_batches(m, chunks);
    lemma_drain_frames(frames, replies, Seq::empty(), m.pending);
    assert(m.unread + concat(frames) =~= concat(frames) + Seq::<u8>::empty());
    assert(answers(m.pending, replies) + Seq::<Resolved>::empty() =~= answers(
        m.pending,
        replies,
    ));
}

/// A reply that is no reply fails the connection and nothing else. After M
/// whole replies, bytes that the parser refuses resolve the first M
/// requests with their replies, fail every request still in flight with a
/// protocol error, and close the connection, which then takes no request.
pub proof fn lemma_fatal_isolation(
    m: TransportModel,
    frames: Seq<Seq<u8>>,
    replies: Seq<Reply>,
    bad: Seq<u8>,
    later: Seq<u8>,
)
    requires
        !m.closed,
        m.unread.len() == 0,
        are_frames_of(frames, replies),
        frames.len() <= m.pending.len(),
        spec_parse(bad) is ParseError,
    ensures
        m.resolved_by(concat(frames) + bad) == answers(m.pending, replies) + fail_all(
            m.pending.skip(frames.len() as int),
            protocol_failure(),
        ),
        m.receive(concat(frames) + bad) == m.close(),
        m.close().state() == State::Closed,
        m.close().submit(later) == m.close(),
        m.close().receive(later) == m.close(),
        m.close().resolved_by(later) == Seq::<Resolved>::empty(),
{
    lemma_drain_frames(frames, replies, bad, m.pending);
    assert(m.unread + (concat(frames) + bad) =~= concat(frames) + bad);
}

/// An error reply fails the request that it answers and no other: the
/// connection stays open, and the replies behind it resolve the requests
/// behind that one.
pub proof fn lemma_server_error_is_scoped(
    m: TransportModel,
    frame: Seq<u8>,
    text: Seq<char>,
    rest: Seq<u8>,
)
    requires
        !m.closed,
        m.unread.len() == 0,
        m.pending.len() > 0,
        is_frame_of(frame, Reply::ServerError(text)),
    ensures
        m.resolved_by(frame + rest) == seq![
            Resolved {
                ticket: m.pending[0],
                outcome: Err((ErrorKind::ServerError, text)),
            },
        ] + drain(rest, m.pending.skip(1)).resolved,
        m.resolved_by(frame).len() == 1,
        !m.receive(frame).closed,
        m.receive(frame).pending == m.pending.skip(1),
{
    let frames = seq![frame];
    let replies = seq![Reply::ServerError(text)];
    assert(concat(frames.skip(1)) =~= Seq::<u8>::empty());
    assert(concat(frames) =~= frame);
    lemma_drain_frames(frames, replies, rest, m.pending);
    lemma_drain_frames(frames, replies, Seq::empty(), m.pending);
    assert(m.unread + (frame + rest) =~= frame + rest);
    assert(m.unread + frame =~= frame + Seq::<u8>::empty());
    assert(answers(m.pending, replies) =~= seq![
        Resolved {
            ticket: m.pending[0],
            outcome: Err((ErrorKind::ServerError, text)),
        },
    ]);
}

/// No two requests in flight have the same ticket.
pub proof fn lemma_tickets_in_flight_differ(m: TransportModel, i: int, j: int)
    requires
        m.wf(),
        0 <= i < j < m.pending.len(),
    ensures
        m.pending[i] != m.pending[j],
{
    lemma_tickets_distinct(m.pending, m.next, i, j);
}

/// Submitting keeps a transport well formed, and so does every other step.
pub proof fn lemma_steps_keep_wf(m: TransportModel, frame: Seq<u8>)
    requires
        m.wf(),
        m.pending.len() + 1 < 0x1_0000_0000_0000_0000,
    ensures
        m.submit(frame).wf(),
        m.flush().wf(),
        m.close().wf(),
{
    let after = m.submit(frame);
    if !m.closed {
        assert forall|i: int| 0 <= i < after.pending.len() implies (#[trigger] after.pending[i])
            as int == (after.next as int - after.pending.len() + i) % 0x1_0000_0000_0000_0000 by {
            if i < m.pending.len() {
                assert(after.pending[i] == m.pending[i]);
            }
        }
    }
}

/// A closed connection stays closed: it takes no request, reads nothing
/// and resolves nothing.
pub proof fn lemma_closed_is_final(m: TransportModel, frame: Seq<u8>, bytes: Seq<u8>)
    requires
        m.closed,
    ensures
        m.submit(frame) == m,
        m.receive(bytes) == m,
        m.resolved_by(bytes) == Seq::<Resolved>::empty(),
        m.flush().closed,
        m.close().closed,
        m.state() == State::Closed,
{
}

/// The connection after the request frames `requests` were submitted, one
/// after the other.
pub open spec fn after_submits(m: TransportModel, requests: Seq<Seq<u8>>) -> TransportModel
    decreases requests.len(),
{
    if requests.len() == 0 {
        m
    } else {
        after_submits(m, requests.drop_last()).submit(requests.last())
    }
}

/// The first `n` tickets of a connection: 0, 1, 2 and so on.
pub open spec fn first_tickets(n: nat) -> Seq<u64> {
    Seq::new(n, |i: int| i as u64)
}

/// Byte strings one after the other end with the last of them.
pub proof fn lemma_concat_last(parts: Seq<Seq<u8>>)
    requires
        parts.len() > 0,
    ensures
        concat(parts) == concat(parts.drop_last()) + parts.last(),
    decreases parts.len(),
{
    if parts.len() == 1 {
        assert(parts.skip(1) =~= Seq::<Seq<u8>>::empty());
        assert(parts.drop_last() =~= Seq::<Seq<u8>>::empty());
        assert(concat(parts) =~= concat(parts.drop_last()) + parts.last());
    } else {
        lemma_concat_last(parts.skip(1));
        assert(parts.skip(1).drop_last() =~= parts.drop_last().skip(1));
        assert(parts.drop_last()[0] == parts[0]);
        assert(concat(parts) =~= concat(parts.drop_last()) + parts.last());
    }
}

/// Requests are written in the order of their submission. On a new
/// connection the frames to send are the submitted frames, whole and in
/// order, and the tickets in flight are 0, 1, 2 and so on, in order.
pub proof fn lemma_submits_in_order(requests: Seq<Seq<u8>>)
    requires
        requests.len() <= u64::MAX,
    ensures
        after_submits(TransportModel::fresh(), requests) == (TransportModel {
            unread: Seq::empty(),
            unsent: concat(requests),
            pending: first_tickets(requests.len()),
            next: requests.len() as u64,
            closed: false,
        }),
        after_submits(TransportModel::fresh(), requests).wf(),
    decreases requests.len(),
{
    let after = after_submits(TransportModel::fresh(), requests);
    if requests.len() == 0 {
        assert(after.pending =~= first_tickets(0));
    } else {
        lemma_submits_in_order(requests.drop_last());
        lemma_concat_last(requests);
        assert(after.pending =~= first_tickets(requests.len()));
    }
    assert forall|i: int| 0 <= i < after.pending.len() implies (#[trigger] after.pending[i])
        as int == (after.next as int - after.pending.len() + i) % 0x1_0000_0000_0000_0000 by {}
}

/// Pipelining: N requests are submitted on a new connection before any
/// byte arrives, and then the frames of N replies arrive, cut into reads in
/// any way. The i-th request, which holds ticket i, is resolved by the i-th
/// reply, and the connection is idle again.
pub proof fn lemma_pipelined_requests(
    requests: Seq<Seq<u8>>,
    frames: Seq<Seq<u8>>,
    replies: Seq<Reply>,
    chunks: Seq<Seq<u8>>,
)
    requires
        requests.len() <= u64::MAX,
        requests.len() == frames.len(),
        are_frames_of(frames, replies),
        concat(chunks) == concat(frames),
    ensures
        resolved_over(after_submits(TransportModel::fresh(), requests), chunks) == answers(
            first_tickets(requests.len()),
            replies,
        ),
        after_reads(after_submits(TransportModel::fresh(), requests), chunks).state()
            == State::Idle,
{
    lemma_submits_in_order(requests);
    lemma_fifo(after_submits(TransportModel::fresh(), requests), frames, replies, chunks);
}

} // verus!
