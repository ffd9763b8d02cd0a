//! A persistent connection: for how many requests it is kept.

use vstd::prelude::*;

use crate::dav::{file_bytes, is_framed, is_framed_as, Answer, Span};
use crate::http::Context;
use crate::transfer::{after_all, is_run, law_transfer_is_gapless, Rest, SendEvent};

verus! {

/// What became of an answer.
#[derive(Clone, Copy, Debug, PartialEq, Eq, Structural)]
pub enum Delivery {
    /// It was sent, but for so many bytes of its file.
    Sent { unsent: u64 },
    /// Sending failed.
    Failed,
}

/// The requests on one connection.
#[derive(Clone, Copy, Debug, PartialEq, Eq, Structural)]
pub struct Requests {
    /// The most requests that are served; 0 for any number.
    pub max_requests: u32,
    /// The number of requests so far.
    pub served: u32,
    /// Whether another request is read.
    pub open: bool,
}

impl Requests {
    /// No requests yet.
    pub open spec fn none(max_requests: u32) -> Requests {
        Requests { max_requests, served: 0, open: true }
    }

    /// Whether the limit is kept: no more requests than it allows have been served,
    /// and fewer where another one is read.
    pub open spec fn within_limit(self) -> bool {
        self.max_requests != 0 ==> self.served <= self.max_requests && (self.open ==> self.served
            < self.max_requests)
    }

    /// The requests after one more. The connection is kept if the request allows it
    /// and the limit is not reached.
    pub open spec fn after_request(self, keep_alive: bool) -> Requests {
        let served = if self.served < u32::MAX {
            (self.served + 1) as u32
        } else {
            u32::MAX
        };
        Requests {
            served,
            open: keep_alive && (self.max_requests == 0 || served < self.max_requests),
            ..self
        }
    }

    /// The requests after the last one was answered. The connection stays open only
    /// if the answer was sent as a whole: one that is shorter than it announced is
    /// bounded by the end of the connection.
    pub open spec fn after_answer(self, delivery: Delivery) -> Requests {
        Requests { open: self.open && delivery == (Delivery::Sent { unsent: 0 }), ..self }
    }
}

/// A connection with its requests.
pub struct Connection {
    requests: Requests,
}

impl View for Connection {
    type V = Requests;

    closed spec fn view(&self) -> Requests {
        self.requests
    }
}

impl Connection {
    /// A connection on which nothing has been served yet.
    pub fn new(max_requests: u32) -> (r: Connection)
        ensures
            r@ == Requests::none(max_requests),
            r@.within_limit(),
    {
        Connection { requests: Requests { max_requests, served: 0, open: true } }
    }

    /// Whether another request is read.
    pub fn is_open(&self) -> (r: bool)
        ensures
            r == self@.open,
    {
        self.requests.open
    }

    /// The number of requests so far.
    pub fn served(&self) -> (r: u32)
        ensures
            r == self@.served,
    {
        self.requests.served
    }

    /// Counts a request, and says whether the connection is kept after it.
    pub fn request(&mut self, keep_alive: bool) -> (r: bool)
        requires
            old(self)@.within_limit(),
            old(self)@.open,
        ensures
            final(self)@ == old(self)@.after_request(keep_alive),
            r == final(self)@.open,
            final(self)@.within_limit(),
    {
        let max: u32 = self.requests.max_requests;
        let mut served: u32 = self.requests.served;
        if served < u32::MAX {
            served = served + 1;
        }
        let open = keep_alive && (max == 0 || served < max);
        self.requests = Requests { max_requests: max, served, open };
        open
    }

    /// Takes in what became of the answer to the last request, and says whether
    /// another request is read.
    pub fn answered(&mut self, delivery: Delivery) -> (r: bool)
        requires
            old(self)@.within_limit(),
        ensures
            final(self)@ == old(self)@.after_answer(delivery),
            r == final(self)@.open,
            final(self)@.within_limit(),
    {
        let whole = match delivery {
            Delivery::Sent { unsent } => unsent == 0,
            Delivery::Failed => false,
        };
        let open = self.requests.open && whole;
        self.requests = Requests {
            max_requests: self.requests.max_requests,
            served: self.requests.served,
            open,
        };
        open
    }
}

// ---------------------------------------------------------------------------
// Laws
// ---------------------------------------------------------------------------
/// One request and its answer.
pub struct Round {
    /// Whether the request allows the connection to be kept.
    pub keep_alive: bool,
    /// What became of the answer.
    pub delivery: Delivery,
}

/// The requests of a connection after some rounds in a row.
pub open spec fn after_rounds(max_requests: u32, rounds: Seq<Round>) -> Requests
    decreases rounds.len(),
{
    if rounds.len() == 0 {
        Requests::none(max_requests)
    } else {
        let last = rounds.last();
        after_rounds(max_requests, rounds.drop_last()).after_request(
            last.keep_alive,
        ).after_answer(last.delivery)
    }
}

/// No more requests are served than the limit allows: where each round but the last
/// left the connection open, there were at most that many, and the connection is
/// closed when there were as many.
pub proof fn law_requests_are_limited(max_requests: u32, rounds: Seq<Round>)
    requires
        max_requests != 0,
        forall|i: int|
            0 <= i < rounds.len() ==> after_rounds(max_requests, #[trigger] rounds.take(i)).open,
    ensures
        rounds.len() <= max_requests,
        rounds.len() == max_requests ==> !after_rounds(max_requests, rounds).open,
{
    lemma_count(max_requests, rounds);
}

/// The rounds on a connection are counted.
proof fn lemma_count(max_requests: u32, rounds: Seq<Round>)
    requires
        max_requests != 0,
        forall|i: int|
            0 <= i < rounds.len() ==> after_rounds(max_requests, #[trigger] rounds.take(i)).open,
    ensures
        rounds.len() <= max_requests,
        after_rounds(max_requests, rounds).served == rounds.len(),
        after_rounds(max_requests, rounds).max_requests == max_requests,
        after_rounds(max_requests, rounds).within_limit(),
    decreases rounds.len(),
{
    if rounds.len() > 0 {
        let front = rounds.drop_last();
        assert forall|i: int| 0 <= i < front.len() implies after_rounds(
            max_requests,
            #[trigger] front.take(i),
        ).open by {
            assert(front.take(i) =~= rounds.take(i));
        }
        lemma_count(max_requests, front);
        assert(rounds.take(rounds.len() - 1) =~= front);
    }
}

/// Without a limit, a connection is kept exactly as long as the client allows it and
/// each answer is sent as a whole.
pub proof fn law_unlimited_connection_is_kept(served: u32, round: Round)
    ensures
        (Requests { max_requests: 0, served, open: true }).after_request(
            round.keep_alive,
        ).after_answer(round.delivery).open == (round.keep_alive && round.delivery == (
        Delivery::Sent { unsent: 0 })),
{
}

/// A connection that is kept had everything sent: where a part of a file was sent in
/// pieces, however they fell, the connection stays open only if the last byte of the
/// part was sent.
pub proof fn law_kept_connection_had_everything_sent(
    requests: Requests,
    part: Rest,
    events: Seq<SendEvent>,
)
    requires
        part.fits(),
        is_run(part, events),
        requests.after_answer(
            Delivery::Sent { unsent: after_all(part, events).0.remaining },
        ).open,
    ensures
        after_all(part, events).0.offset == part.offset + part.remaining,
        !(after_all(part, events).1 is Send),
{
    law_transfer_is_gapless(part, events);
}

/// A connection that is kept is in step: behind an answer that is framed, the client
/// was sent exactly as many bytes as its head announced, and none if it asked with
/// HEAD.
pub proof fn law_kept_connection_sent_what_was_announced(
    requests: Requests,
    ctx: Context,
    a: Answer,
    is_head: bool,
    span: Span,
    events: Seq<SendEvent>,
)
    requires
        ctx.keep_alive,
        is_framed(ctx, a, is_head),
        a.file == Some(span) || (a.file is None && span.count == 0),
        span.start + span.count <= u64::MAX,
        is_run(Rest { offset: span.start, remaining: span.count }, events),
        requests.after_answer(
            Delivery::Sent {
                unsent: after_all(
                    Rest { offset: span.start, remaining: span.count },
                    events,
                ).0.remaining,
            },
        ).open,
    ensures
        exists|content_type: Seq<char>, headers: Seq<(Seq<char>, Seq<char>)>, n: nat, body: Seq<u8>|
            {
                let sent = after_all(
                    Rest { offset: span.start, remaining: span.count },
                    events,
                ).0.offset - span.start;
                &&& #[trigger] is_framed_as(ctx, a, content_type, headers, n, body)
                &&& !is_head ==> n == body.len() + sent
                &&& is_head ==> body.len() == 0 && sent == 0
            },
{
    let part = Rest { offset: span.start, remaining: span.count };
    law_kept_connection_had_everything_sent(requests, part, events);
    assert(file_bytes(a) == span.count);
    let (content_type, headers, n, body) = choose|
        content_type: Seq<char>,
        headers: Seq<(Seq<char>, Seq<char>)>,
        n: nat,
        body: Seq<u8>,
    |
        {
            &&& #[trigger] is_framed_as(ctx, a, content_type, headers, n, body)
            &&& !is_head ==> n == body.len() + file_bytes(a)
            &&& is_head ==> a.file is None && (body.len() == 0 || (!ctx.keep_alive && n
                == body.len()))
        };
    assert(is_framed_as(ctx, a, content_type, headers, n, body));
}

/// An answer that could not be sent, or whose file ended early, closes the
/// connection.
pub proof fn law_short_answers_close(requests: Requests, unsent: u64)
    requires
        unsent != 0,
    ensures
        !requests.after_answer(Delivery::Sent { unsent }).open,
        !requests.after_answer(Delivery::Failed).open,
{
}

/// For how many requests a connection is kept: after each one it is counted, and it
/// stays open exactly where the request allows it and the count, with this request in
/// it, is below the limit, or there is no limit.
pub proof fn law_requests_are_counted(requests: Requests, keep_alive: bool, delivery: Delivery)
    requires
        requests.served < u32::MAX,
    ensures
        ({
            let next = requests.after_request(keep_alive);
            &&& next.served == requests.served + 1
            &&& next.max_requests == requests.max_requests
            &&& next.open <==> keep_alive && (requests.max_requests == 0 || requests.served + 1
                < requests.max_requests)
        }),
        ({
            let next = requests.after_answer(delivery);
            &&& next.served == requests.served
            &&& next.max_requests == requests.max_requests
            &&& next.open <==> requests.open && (delivery matches Delivery::Sent { unsent }
                && unsent == 0)
        }),
        Requests::none(requests.max_requests).open,
        Requests::none(requests.max_requests).served == 0,
        Requests::none(requests.max_requests).max_requests == requests.max_requests,
{
}

/// A connection on which nothing goes wrong serves as many requests as the limit says,
/// neither more nor fewer.
pub proof fn law_limit_is_reached(max_requests: u32, rounds: Seq<Round>)
    requires
        max_requests != 0,
        rounds.len() < max_requests,
        forall|i: int|
            0 <= i < rounds.len() ==> (#[trigger] rounds[i]).keep_alive && rounds[i].delivery == (
            Delivery::Sent { unsent: 0 }),
    ensures
        after_rounds(max_requests, rounds).open,
        after_rounds(max_requests, rounds).served == rounds.len(),
        after_rounds(max_requests, rounds).max_requests == max_requests,
    decreases rounds.len(),
{
    if rounds.len() > 0 {
        let front = rounds.drop_last();
        assert forall|i: int| 0 <= i < front.len() implies (#[trigger] front[i]).keep_alive
            && front[i].delivery == (Delivery::Sent { unsent: 0 }) by {
            assert(front[i] == rounds[i]);
        }
        law_limit_is_reached(max_requests, front);
        assert(rounds[rounds.len() - 1].keep_alive);
    }
}

} // verus!
