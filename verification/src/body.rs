//! Discarding the body of a request, in pieces.

use vstd::prelude::*;

verus! {

/// The most bytes of a body that are read at once.
pub const MAX_READ: usize = 4096;

/// What to do next.
#[derive(Clone, Copy, Debug, PartialEq, Eq, Structural)]
pub enum DrainAction {
    /// Read up to this many bytes and discard them.
    Read(usize),
    /// The whole body was discarded, or the stream has ended.
    Finish,
}

/// The number of bytes to read next, with `remaining` still to come.
pub open spec fn next_read(remaining: nat) -> nat {
    if remaining <= MAX_READ {
        remaining
    } else {
        MAX_READ as nat
    }
}

/// What to do with `remaining` bytes still to come.
pub open spec fn drain_todo(remaining: nat) -> DrainAction {
    if remaining == 0 {
        DrainAction::Finish
    } else {
        DrainAction::Read(next_read(remaining) as usize)
    }
}

/// What remains after `read` of `remaining` bytes were read, and what to do next.
/// Where none could be read, the stream has ended.
pub open spec fn after_read(remaining: nat, read: nat) -> (nat, DrainAction) {
    if read == 0 {
        (remaining, DrainAction::Finish)
    } else {
        let left = (remaining - read) as nat;
        (left, drain_todo(left))
    }
}

/// A body that is being discarded.
pub struct Drain {
    remaining: usize,
}

impl View for Drain {
    type V = nat;

    /// The number of bytes still to come.
    closed spec fn view(&self) -> nat {
        self.remaining as nat
    }
}

impl Drain {
    /// A body of `len` bytes, and what to do first.
    pub fn start(len: usize) -> (r: (Drain, DrainAction))
        ensures
            r.0@ == len,
            r.1 == drain_todo(len as nat),
    {
        let drain = Drain { remaining: len };
        let action = drain.next_action();
        (drain, action)
    }

    /// The number of bytes still to come.
    pub fn remaining(&self) -> (r: usize)
        ensures
            r == self@,
    {
        self.remaining
    }

    /// What to do with what is still to come.
    fn next_action(&self) -> (r: DrainAction)
        ensures
            r == drain_todo(self@),
    {
        if self.remaining == 0 {
            DrainAction::Finish
        } else if self.remaining <= MAX_READ {
            DrainAction::Read(self.remaining)
        } else {
            DrainAction::Read(MAX_READ)
        }
    }

    /// Takes in how many bytes were read, which are no more than were asked for, and
    /// says what to do next.
    pub fn step(&mut self, read: usize) -> (r: DrainAction)
        requires
            read <= next_read(old(self)@),
        ensures
            (final(self)@, r) == after_read(old(self)@, read as nat),
    {
        if read == 0 {
            return DrainAction::Finish;
        }
        self.remaining = self.remaining - read;
        self.next_action()
    }
}

// ---------------------------------------------------------------------------
// Laws
// ---------------------------------------------------------------------------
/// What remains of a body of `len` bytes after some reads in a row, and what to do
/// next.
pub open spec fn after_reads(len: nat, reads: Seq<nat>) -> (nat, DrainAction)
    decreases reads.len(),
{
    if reads.len() == 0 {
        (len, drain_todo(len))
    } else {
        let before = after_reads(len, reads.drop_last());
        if before.1 is Read {
            after_read(before.0, reads.last())
        } else {
            before
        }
    }
}

/// Whether no read gives more than was asked for, and each was asked for.
pub open spec fn are_reads(len: nat, reads: Seq<nat>) -> bool
    decreases reads.len(),
{
    reads.len() > 0 ==> {
        let before = after_reads(len, reads.drop_last());
        &&& are_reads(len, reads.drop_last())
        &&& before.1 is Read
        &&& reads.last() <= next_read(before.0)
    }
}

/// The number of bytes in all reads.
pub open spec fn total(reads: Seq<nat>) -> nat
    decreases reads.len(),
{
    if reads.len() == 0 {
        0
    } else {
        total(reads.drop_last()) + reads.last()
    }
}

/// However the reads fall, exactly the body is discarded: never a byte more, and all
/// of it unless the stream ends.
pub proof fn law_exactly_the_body_is_discarded(len: nat, reads: Seq<nat>)
    requires
        len <= usize::MAX,
        are_reads(len, reads),
    ensures
        total(reads) + after_reads(len, reads).0 == len,
        after_reads(len, reads).1 is Finish ==> total(reads) == len || reads.contains(0),
    decreases reads.len(),
{
    if reads.len() > 0 {
        law_exactly_the_body_is_discarded(len, reads.drop_last());
        if reads.last() == 0 {
            assert(reads[reads.len() - 1] == 0);
        }
    }
}

/// How a body is discarded: by reads of at most 4096 bytes, each for as much as is still
/// to come, until nothing is or the stream has ended.
pub proof fn law_bodies_are_read_in_pieces(remaining: nat, read: nat)
    requires
        remaining <= usize::MAX,
    ensures
        drain_todo(0) is Finish,
        0 < remaining <= 4096 ==> (drain_todo(remaining) matches DrainAction::Read(n) && n
            == remaining),
        remaining > 4096 ==> (drain_todo(remaining) matches DrainAction::Read(n) && n == 4096),
        0 < read <= remaining ==> after_read(remaining, read).0 == remaining - read && after_read(
            remaining,
            read,
        ).1 == drain_todo((remaining - read) as nat),
        after_read(remaining, 0) == (remaining, DrainAction::Finish),
{
}

} // verus!
