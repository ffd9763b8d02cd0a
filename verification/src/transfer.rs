//! Sending a part of a file in pieces.

use vstd::prelude::*;

verus! {

/// The most bytes that one call sends.
pub const MAX_PIECE: u64 = 0x7fff_f000;

/// What became of one attempt to send.
#[derive(Clone, Copy, Debug, PartialEq, Eq, Structural)]
pub enum SendEvent {
    /// This many bytes were sent; none where the file has ended.
    Sent(u64),
    /// A signal came in between, and nothing was sent.
    Interrupted,
    /// Sending failed.
    Failed,
}

/// What to do next.
#[derive(Clone, Copy, Debug, PartialEq, Eq, Structural)]
pub enum SendAction {
    /// Send up to `count` bytes of the file from `offset` on.
    Send { offset: u64, count: u64 },
    /// Everything was sent, or the file has ended.
    Finish,
    /// Report the failure.
    Fail,
}

/// The part of a file that is left to send.
#[derive(Clone, Copy, Debug, PartialEq, Eq, Structural)]
pub struct Rest {
    pub offset: u64,
    pub remaining: u64,
}

impl Rest {
    /// Whether the offsets of all that is left are numbers.
    pub open spec fn fits(self) -> bool {
        self.offset + self.remaining <= u64::MAX
    }

    /// The number of bytes to send next.
    pub open spec fn piece(self) -> u64 {
        if self.remaining <= MAX_PIECE {
            self.remaining
        } else {
            MAX_PIECE
        }
    }

    /// What to do with what is left.
    pub open spec fn todo(self) -> SendAction {
        if self.remaining == 0 {
            SendAction::Finish
        } else {
            SendAction::Send { offset: self.offset, count: self.piece() }
        }
    }

    /// What is left after an event, and what to do next.
    pub open spec fn after(self, event: SendEvent) -> (Rest, SendAction) {
        match event {
            SendEvent::Sent(n) => if n == 0 {
                (self, SendAction::Finish)
            } else {
                let next = Rest {
                    offset: (self.offset + n) as u64,
                    remaining: (self.remaining - n) as u64,
                };
                (next, next.todo())
            },
            SendEvent::Interrupted => (self, self.todo()),
            SendEvent::Failed => (self, SendAction::Fail),
        }
    }
}

/// A transfer under way.
pub struct Transfer {
    rest: Rest,
}

impl View for Transfer {
    type V = Rest;

    /// What is left to send.
    closed spec fn view(&self) -> Rest {
        self.rest
    }
}

impl Transfer {
    /// The transfer of `count` bytes from `offset` on, and what to do first.
    pub fn start(offset: u64, count: u64) -> (r: (Transfer, SendAction))
        requires
            offset + count <= u64::MAX,
        ensures
            r.0@ == (Rest { offset, remaining: count }),
            r.0@.fits(),
            r.1 == r.0@.todo(),
    {
        let t = Transfer { rest: Rest { offset, remaining: count } };
        let action = t.next_send();
        (t, action)
    }

    /// The number of bytes that have not been sent.
    pub fn unsent(&self) -> (r: u64)
        ensures
            r == self@.remaining,
    {
        self.rest.remaining
    }

    /// What to do with what is left.
    fn next_send(&self) -> (r: SendAction)
        ensures
            r == self@.todo(),
    {
        let Rest { offset, remaining } = self.rest;
        if remaining == 0 {
            SendAction::Finish
        } else if remaining <= MAX_PIECE {
            SendAction::Send { offset, count: remaining }
        } else {
            SendAction::Send { offset, count: MAX_PIECE }
        }
    }

    /// Takes in what became of the last attempt, which sent no more than was asked
    /// for, and says what to do next.
    pub fn step(&mut self, event: SendEvent) -> (r: SendAction)
        requires
            old(self)@.fits(),
            event matches SendEvent::Sent(n) ==> n <= old(self)@.piece(),
        ensures
            (final(self)@, r) == old(self)@.after(event),
            final(self)@.fits(),
    {
        match event {
            SendEvent::Sent(n) => {
                if n == 0 {
                    return SendAction::Finish;
                }
                self.rest = Rest {
                    offset: self.rest.offset + n,
                    remaining: self.rest.remaining - n,
                };
                self.next_send()
            },
            SendEvent::Interrupted => self.next_send(),
            SendEvent::Failed => SendAction::Fail,
        }
    }
}

// ---------------------------------------------------------------------------
// Laws
// ---------------------------------------------------------------------------
/// What is left after some events in a row, as long as there is something to send.
pub open spec fn after_all(t: Rest, events: Seq<SendEvent>) -> (Rest, SendAction)
    decreases events.len(),
{
    if events.len() == 0 {
        (t, t.todo())
    } else {
        let before = after_all(t, events.drop_last());
        if before.1 is Send {
            before.0.after(events.last())
        } else {
            before
        }
    }
}

/// Whether no attempt sends more than was asked for.
pub open spec fn is_run(t: Rest, events: Seq<SendEvent>) -> bool
    decreases events.len(),
{
    events.len() > 0 ==> {
        &&& is_run(t, events.drop_last())
        &&& events.last() matches SendEvent::Sent(n) ==> n <= after_all(
            t,
            events.drop_last(),
        ).0.piece()
    }
}

/// However the pieces fall, the transfer goes through the part of the file from
/// front to back: what has been sent and what is left always make it up, and it
/// finishes with everything sent unless the file ended early.
pub proof fn law_transfer_is_gapless(t: Rest, events: Seq<SendEvent>)
    requires
        t.fits(),
        is_run(t, events),
    ensures
        ({
            let now = after_all(t, events);
            &&& now.0.fits()
            &&& t.offset <= now.0.offset
            &&& now.0.offset + now.0.remaining == t.offset + t.remaining
            &&& now.1 matches SendAction::Send { offset, count } ==> offset == now.0.offset && 0
                < count <= now.0.remaining
            &&& now.1 is Finish ==> now.0.remaining == 0 || events.contains(SendEvent::Sent(0))
        }),
    decreases events.len(),
{
    if events.len() > 0 {
        let front = events.drop_last();
        law_transfer_is_gapless(t, front);
        let before = after_all(t, front);
        if before.1 is Send {
            if events.last() == SendEvent::Sent(0) {
                assert(events[events.len() - 1] == SendEvent::Sent(0));
            }
        } else if before.1 is Finish && before.0.remaining != 0 {
            let i = choose|i: int| 0 <= i < front.len() && front[i] == SendEvent::Sent(0);
            assert(events[i] == SendEvent::Sent(0));
        }
    }
}

/// How a part of a file is sent: in pieces of at most 2147479552 bytes, each as large as
/// what is left allows, from where the one before ended. Nothing is sent twice after an
/// interruption, and nothing more once the file has ended or sending has failed.
pub proof fn law_pieces_follow_each_other(t: Rest, n: u64)
    requires
        t.fits(),
    ensures
        t.remaining == 0 ==> t.todo() is Finish,
        t.remaining > 0 ==> t.todo() == (SendAction::Send {
            offset: t.offset,
            count: if t.remaining < 2147479552 {
                t.remaining
            } else {
                2147479552
            },
        }),
        0 < n <= t.remaining ==> {
            let (next, action) = t.after(SendEvent::Sent(n));
            &&& next.offset == t.offset + n
            &&& next.remaining == t.remaining - n
            &&& action == next.todo()
        },
        t.after(SendEvent::Sent(0)) == (t, SendAction::Finish),
        t.after(SendEvent::Interrupted) == (t, t.todo()),
        t.after(SendEvent::Failed) == (t, SendAction::Fail),
{
}

} // verus!
