//! The tickets of the requests in flight, oldest first.

use std::collections::VecDeque;
use vstd::prelude::*;

verus! {

/// The ticket that is issued after `ticket`. Tickets are counted up and
/// start again at zero after the largest.
pub open spec fn next_ticket(ticket: u64) -> u64 {
    if ticket == u64::MAX {
        0
    } else {
        (ticket + 1) as u64
    }
}

/// Whether `tickets` were issued one after the other, the last of them just
/// before `next`.
pub open spec fn issued_in_order(tickets: Seq<u64>, next: u64) -> bool {
    &&& tickets.len() < 0x1_0000_0000_0000_0000
    &&& forall|i: int|
        0 <= i < tickets.len() ==> (#[trigger] tickets[i]) as int == (next as int - tickets.len()
            + i) % 0x1_0000_0000_0000_0000
}

/// Tickets that were issued in order are all different.
pub proof fn lemma_tickets_distinct(tickets: Seq<u64>, next: u64, i: int, j: int)
    requires
        issued_in_order(tickets, next),
        0 <= i < j < tickets.len(),
    ensures
        tickets[i] != tickets[j],
{
    let base = next as int - tickets.len();
    let m = 0x1_0000_0000_0000_0000int;
    assert(tickets[i] as int == (base + i) % m);
    assert(tickets[j] as int == (base + j) % m);
    if (base + i) % m == (base + j) % m {
        assert(base + i == m * ((base + i) / m) + (base + i) % m) by (nonlinear_arith)
            requires
                m == 0x1_0000_0000_0000_0000int,
        ;
        assert(base + j == m * ((base + j) / m) + (base + j) % m) by (nonlinear_arith)
            requires
                m == 0x1_0000_0000_0000_0000int,
        ;
        let d = (base + j) / m - (base + i) / m;
        assert(j - i == m * d) by (nonlinear_arith)
            requires
                base + i == m * ((base + i) / m) + (base + i) % m,
                base + j == m * ((base + j) / m) + (base + j) % m,
                (base + i) % m == (base + j) % m,
                d == (base + j) / m - (base + i) / m,
        ;
        assert(false) by (nonlinear_arith)
            requires
                j - i == m * d,
                0 < j - i < m,
        ;
    }
}

/// The queue of tickets: a ticket is issued at the back when a request is
/// submitted and leaves at the front when its reply has come.
#[derive(Debug)]
pub struct TicketQueue {
    tickets: VecDeque<u64>,
    next: u64,
}

impl TicketQueue {
    /// The tickets in flight, oldest first.
    pub closed spec fn tickets(&self) -> Seq<u64> {
        self.tickets@
    }

    /// The ticket that the next request gets.
    pub closed spec fn next(&self) -> u64 {
        self.next
    }

    /// Whether the tickets in flight were issued in order.
    pub open spec fn wf(&self) -> bool {
        issued_in_order(self.tickets(), self.next())
    }

    /// A queue without tickets, which issues ticket 0 first.
    pub fn new() -> (q: TicketQueue)
        ensures
            q.wf(),
            q.tickets() == Seq::<u64>::empty(),
            q.next() == 0,
    {
        TicketQueue { tickets: VecDeque::new(), next: 0 }
    }

    /// The number of tickets in flight.
    pub fn len(&self) -> (n: usize)
        ensures
            n == self.tickets().len(),
    {
        self.tickets.len()
    }

    /// Issues a ticket and puts it at the back of the queue.
    pub fn issue(&mut self) -> (ticket: u64)
        ensures
            old(self).wf() ==> final(self).wf(),
            ticket == old(self).next(),
            final(self).tickets() == old(self).tickets().push(ticket),
            final(self).next() == next_ticket(ticket),
    {
        let ticket = self.next;
        self.tickets.push_back(ticket);
        self.next = if ticket == u64::MAX {
            0
        } else {
            ticket + 1
        };
        let in_flight: usize = self.tickets.len();
        assert(self.tickets@.len() == in_flight);
        proof {
            if old(self).wf() {
                assert forall|i: int| 0 <= i < self.tickets@.len() implies (
                #[trigger] self.tickets@[i]) as int == (self.next as int - self.tickets@.len() + i)
                    % 0x1_0000_0000_0000_0000 by {
                    if i < old(self).tickets@.len() {
                        assert(self.tickets@[i] == old(self).tickets@[i]);
                    }
                }
            }
        }
        ticket
    }

    /// Takes the oldest ticket from the queue, if there is one.
    pub fn take_front(&mut self) -> (ticket: Option<u64>)
        ensures
            old(self).wf() ==> final(self).wf(),
            final(self).next() == old(self).next(),
            match ticket {
                Some(t) => old(self).tickets().len() > 0 && t == old(self).tickets()[0]
                    && final(self).tickets() == old(self).tickets().skip(1),
                None => old(self).tickets().len() == 0 && final(self).tickets() == old(
                    self,
                ).tickets(),
            },
    {
        let ticket = self.tickets.pop_front();
        assert(self.tickets@ =~= old(self).tickets@.skip(1) || ticket is None);
        proof {
            if old(self).wf() {
                assert forall|i: int| 0 <= i < self.tickets@.len() implies (
                #[trigger] self.tickets@[i]) as int == (self.next as int - self.tickets@.len() + i)
                    % 0x1_0000_0000_0000_0000 by {
                    if ticket is Some {
                        assert(self.tickets@[i] == old(self).tickets@[i + 1]);
                    }
                }
            }
        }
        ticket
    }
}

} // verus!
