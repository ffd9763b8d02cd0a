//! A listening server that hands each connection to a child process: when it
//! accepts, and how many children it has at once.

use vstd::prelude::*;

verus! {

/// What came of the last action.
#[derive(Clone, Copy, Debug, PartialEq, Eq, Structural)]
pub enum ListenEvent {
    /// This many children that had exited were collected.
    Reaped(u32),
    /// The wait ended with a child that had exited, or because there is none.
    Waited { child: bool },
    /// A connection came in.
    Accepted,
    /// No connection could be accepted.
    AcceptFailed,
    /// No child could be made; the connection is dropped.
    ForkFailed,
    /// There is one more child, which has the connection.
    Parent,
    /// This process is the child.
    Child,
}

/// What to do next.
#[derive(Clone, Copy, Debug, PartialEq, Eq, Structural)]
pub enum ListenAction {
    /// Collect the children that have exited, without waiting for any.
    Reap,
    /// Wait for a child to exit.
    Wait,
    /// Accept a connection.
    Accept,
    /// Make a child for the connection.
    Fork,
    /// Serve the connection.
    Serve,
}

/// The children that serve connections.
#[derive(Clone, Copy, Debug, PartialEq, Eq, Structural)]
pub struct Children {
    /// The most connections that are served at once; 0 for any number.
    pub max_connections: u32,
    /// The number of connections that are served by children.
    pub live: u32,
}

impl Children {
    /// Whether the limit is kept.
    pub open spec fn within_limit(self) -> bool {
        self.max_connections != 0 ==> self.live <= self.max_connections
    }

    /// Whether there is no room for another connection.
    pub open spec fn full(self) -> bool {
        self.max_connections != 0 && self.live >= self.max_connections
    }

    /// What to do once the children have been counted.
    pub open spec fn once_counted(self) -> ListenAction {
        if self.full() {
            ListenAction::Wait
        } else {
            ListenAction::Accept
        }
    }

    /// The children after an event, and what to do next.
    pub open spec fn after(self, event: ListenEvent) -> (Children, ListenAction) {
        match event {
            ListenEvent::Reaped(n) => {
                let next = Children {
                    live: if n <= self.live {
                        (self.live - n) as u32
                    } else {
                        0
                    },
                    ..self
                };
                (next, next.once_counted())
            },
            ListenEvent::Waited { child } => {
                let next = Children {
                    live: if child && self.live > 0 {
                        (self.live - 1) as u32
                    } else {
                        0
                    },
                    ..self
                };
                (next, next.once_counted())
            },
            ListenEvent::Accepted => (self, ListenAction::Fork),
            ListenEvent::AcceptFailed => (self, ListenAction::Reap),
            ListenEvent::ForkFailed => (self, ListenAction::Reap),
            ListenEvent::Parent => {
                let live = if self.live < u32::MAX {
                    (self.live + 1) as u32
                } else {
                    u32::MAX
                };
                (Children { live, ..self }, ListenAction::Reap)
            },
            ListenEvent::Child => (self, ListenAction::Serve),
        }
    }
}

/// A listening server with its children.
pub struct Listener {
    children: Children,
}

impl View for Listener {
    type V = Children;

    closed spec fn view(&self) -> Children {
        self.children
    }
}

impl Listener {
    /// A listener without children, and what to do first.
    pub fn start(max_connections: u32) -> (r: (Listener, ListenAction))
        ensures
            r.0@ == (Children { max_connections, live: 0 }),
            r.0@.within_limit(),
            r.1 == ListenAction::Reap,
    {
        (Listener { children: Children { max_connections, live: 0 } }, ListenAction::Reap)
    }

    /// The number of connections that are served by children.
    pub fn live(&self) -> (r: u32)
        ensures
            r == self@.live,
    {
        self.children.live
    }

    /// Sets the number of children.
    fn count(&mut self, live: u32)
        ensures
            final(self)@ == (Children { live, ..old(self)@ }),
    {
        self.children = Children { max_connections: self.children.max_connections, live };
    }

    /// What to do once the children have been counted.
    fn next_admission(&self) -> (r: ListenAction)
        ensures
            r == self@.once_counted(),
    {
        let Children { max_connections, live } = self.children;
        if max_connections != 0 && live >= max_connections {
            ListenAction::Wait
        } else {
            ListenAction::Accept
        }
    }

    /// Takes in what came of the last action, and says what to do next. A child
    /// is made only when there is room for its connection.
    pub fn step(&mut self, event: ListenEvent) -> (r: ListenAction)
        requires
            old(self)@.within_limit(),
            event == ListenEvent::Parent ==> !old(self)@.full(),
        ensures
            (final(self)@, r) == old(self)@.after(event),
            final(self)@.within_limit(),
    {
        let live: u32 = self.children.live;
        match event {
            ListenEvent::Reaped(n) => {
                self.count(
                    if n <= live {
                        live - n
                    } else {
                        0
                    },
                );
                self.next_admission()
            },
            ListenEvent::Waited { child } => {
                self.count(
                    if child && live > 0 {
                        live - 1
                    } else {
                        0
                    },
                );
                self.next_admission()
            },
            ListenEvent::Accepted => ListenAction::Fork,
            ListenEvent::AcceptFailed => ListenAction::Reap,
            ListenEvent::ForkFailed => ListenAction::Reap,
            ListenEvent::Parent => {
                if live < u32::MAX {
                    self.count(live + 1);
                }
                ListenAction::Reap
            },
            ListenEvent::Child => ListenAction::Serve,
        }
    }
}

// ---------------------------------------------------------------------------
// Laws
// ---------------------------------------------------------------------------
/// Whether an event can come of an action.
pub open spec fn answers(action: ListenAction, event: ListenEvent) -> bool {
    match action {
        ListenAction::Reap => event is Reaped,
        ListenAction::Wait => event is Waited,
        ListenAction::Accept => event is Accepted || event is AcceptFailed,
        ListenAction::Fork => event is ForkFailed || event is Parent || event is Child,
        ListenAction::Serve => false,
    }
}

/// The children after some events in a row, and what to do next.
pub open spec fn after_events(max_connections: u32, events: Seq<ListenEvent>) -> (
    Children,
    ListenAction,
)
    decreases events.len(),
{
    if events.len() == 0 {
        (Children { max_connections, live: 0 }, ListenAction::Reap)
    } else {
        after_events(max_connections, events.drop_last()).0.after(events.last())
    }
}

/// Whether each event comes of the action before it.
pub open spec fn is_history(max_connections: u32, events: Seq<ListenEvent>) -> bool
    decreases events.len(),
{
    events.len() > 0 ==> {
        &&& is_history(max_connections, events.drop_last())
        &&& answers(after_events(max_connections, events.drop_last()).1, events.last())
    }
}

/// Concurrency is bounded: whatever happens, there are never more connections
/// served at once than the limit allows, and none is accepted when it is reached.
pub proof fn law_connections_are_limited(max_connections: u32, events: Seq<ListenEvent>)
    requires
        is_history(max_connections, events),
    ensures
        ({
            let now = after_events(max_connections, events);
            &&& now.0.max_connections == max_connections
            &&& now.0.within_limit()
            &&& now.1 is Accept || now.1 is Fork ==> !now.0.full()
        }),
    decreases events.len(),
{
    if events.len() > 0 {
        law_connections_are_limited(max_connections, events.drop_last());
    }
}

/// When a connection is accepted: once the children are counted, exactly where there are
/// fewer than the limit, or there is no limit; else a child is waited for. And how they
/// are counted: one more for each that is made, one less for each that has exited, and
/// none where there is none to wait for.
pub proof fn law_children_are_counted(c: Children, n: u32)
    ensures
        ({
            let (next, action) = c.after(ListenEvent::Reaped(n));
            &&& next.max_connections == c.max_connections
            &&& n <= c.live ==> next.live == c.live - n
            &&& n > c.live ==> next.live == 0
            &&& action is Accept <==> c.max_connections == 0 || next.live < c.max_connections
            &&& action is Accept || action is Wait
        }),
        ({
            let (next, action) = c.after(ListenEvent::Waited { child: true });
            &&& next.max_connections == c.max_connections
            &&& c.live > 0 ==> next.live == c.live - 1
            &&& c.live == 0 ==> next.live == 0
            &&& action is Accept <==> c.max_connections == 0 || next.live < c.max_connections
            &&& action is Accept || action is Wait
        }),
        ({
            let (next, action) = c.after(ListenEvent::Waited { child: false });
            &&& next.max_connections == c.max_connections
            &&& next.live == 0
            &&& action is Accept
        }),
        c.after(ListenEvent::Accepted) == (c, ListenAction::Fork),
        c.after(ListenEvent::AcceptFailed) == (c, ListenAction::Reap),
        c.after(ListenEvent::ForkFailed) == (c, ListenAction::Reap),
        c.after(ListenEvent::Child) == (c, ListenAction::Serve),
        ({
            let (next, action) = c.after(ListenEvent::Parent);
            &&& next.max_connections == c.max_connections
            &&& c.live < u32::MAX ==> next.live == c.live + 1
            &&& action is Reap
        }),
{
}

} // verus!
