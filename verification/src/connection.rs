//! The order of things on one connection of a log's server: wait until some stream has grown, send
//! what is new in it, wait again.
use vstd::prelude::*;

verus! {

/// The state of a connection that serves a number of streams.
pub struct Connection {
    /// Which streams are waited for.
    watched: Vec<bool>,
    /// The stream that is being sent.
    sending: Option<usize>,
    /// Whether the connection is given up.
    closed: bool,
}

/// What a connection is, seen from outside.
#[verifier::ext_equal]
pub struct ConnectionView {
    pub watched: Seq<bool>,
    pub sending: Option<int>,
    pub closed: bool,
}

impl ConnectionView {
    /// No stream is left out: of each the connection waits for news or is sending them.
    pub open spec fn attends_all(self) -> bool {
        forall|i: int|
            0 <= i < self.watched.len() ==> (#[trigger] self.watched[i] <==> self.sending != Some(i))
    }

    /// The stream that is being sent is one of the connection's.
    pub open spec fn in_range(self) -> bool {
        self.sending matches Some(i) ==> 0 <= i < self.watched.len()
    }

    /// A connection that waits for news of all of its `n` streams.
    pub open spec fn waiting(n: nat) -> ConnectionView {
        ConnectionView { watched: Seq::new(n, |i: int| true), sending: None, closed: false }
    }
}

/// What happened to a connection.
#[derive(Clone, Copy, Debug, PartialEq, Eq, Structural)]
pub enum Event {
    /// A stream that was waited for has grown.
    Changed(usize),
    /// The stream that was being sent is sent.
    Sent,
    /// The stream that was being sent could not be sent.
    Failed,
    /// There is nothing to wait for.
    Idle,
}

/// What a connection does about it.
#[derive(Clone, Copy, Debug, PartialEq, Eq, Structural)]
pub enum Action {
    /// Send what is new in a stream.
    Send(usize),
    /// Wait for news of a stream, as of the others.
    Watch(usize),
    /// Give the connection up.
    Close,
}

impl View for Connection {
    type V = ConnectionView;

    closed spec fn view(&self) -> ConnectionView {
        ConnectionView {
            watched: self.watched@,
            sending: match self.sending {
                Some(i) => Some(i as int),
                None => None,
            },
            closed: self.closed,
        }
    }
}

impl Connection {
    /// A connection attends to all of its streams until it is given up.
    pub open spec fn wf(&self) -> bool {
        &&& self@.in_range()
        &&& !self@.closed ==> self@.attends_all()
    }

    /// An event that can happen in this state.
    pub open spec fn expects(&self, event: Event) -> bool {
        &&& !self@.closed
        &&& match event {
            Event::Changed(i) => self@.sending is None && i < self@.watched.len()
                && self@.watched[i as int],
            Event::Sent => self@.sending is Some,
            Event::Failed => self@.sending is Some,
            Event::Idle => self@.sending is None && forall|i: int|
                0 <= i < self@.watched.len() ==> !#[trigger] self@.watched[i],
        }
    }

    /// A connection that waits for news of `n` streams.
    pub fn new(n: usize) -> (conn: Self)
        ensures
            conn.wf(),
            conn@ == ConnectionView::waiting(n as nat),
            !conn@.closed,
            conn@.sending is None,
            conn@.watched.len() == n,
            forall|i: int| 0 <= i < n ==> #[trigger] conn@.watched[i],
            forall|i: usize| i < n ==> #[trigger] conn.expects(Event::Changed(i)),
            !conn.expects(Event::Sent),
            !conn.expects(Event::Failed),
            conn.expects(Event::Idle) <==> n == 0,
    {
        let mut watched: Vec<bool> = Vec::new();
        let mut i: usize = 0;
        while i < n
            invariant
                i <= n,
                watched@ == Seq::new(i as nat, |j: int| true),
            decreases n - i,
        {
            watched.push(true);
            i += 1;
            assert(watched@ =~= Seq::new(i as nat, |j: int| true));
        }
        let conn = Connection { watched, sending: None, closed: false };
        proof {
            law_what_a_waiting_connection_expects(conn);
        }
        conn
    }

    /// Takes note of an event, and says what is to be done.
    pub fn step(&mut self, event: Event) -> (action: Action)
        requires
            old(self).wf(),
            old(self).expects(event),
        ensures
            final(self).wf(),
            final(self)@.watched.len() == old(self)@.watched.len(),
            action == Action::Close <==> event is Failed || event is Idle,
            final(self)@.closed <==> event is Failed || event is Idle,
            event matches Event::Changed(i) ==> {
                &&& action == Action::Send(i)
                &&& final(self)@.sending == Some(i as int)
                &&& forall|j: int|
                    0 <= j < old(self)@.watched.len() ==> (#[trigger] final(self)@.watched[j] <==> j
                        != i)
                &&& final(self).expects(Event::Sent)
                &&& final(self).expects(Event::Failed)
            },
            event is Sent ==> {
                &&& (action matches Action::Watch(i) && old(self)@.sending == Some(i as int))
                &&& final(self)@.sending is None
                &&& forall|j: int|
                    0 <= j < old(self)@.watched.len() ==> #[trigger] final(self)@.watched[j]
                &&& forall|j: usize|
                    j < old(self)@.watched.len() ==> #[trigger] final(self).expects(
                        Event::Changed(j),
                    )
                &&& !final(self).expects(Event::Sent)
                &&& !final(self).expects(Event::Failed)
                &&& !final(self).expects(Event::Idle)
            },
            event is Failed || event is Idle ==> {
                &&& final(self)@.sending is None
                &&& final(self)@.watched == old(self)@.watched
                &&& forall|e: Event| !#[trigger] final(self).expects(e)
            },
            match event {
                Event::Changed(i) => {
                    &&& action == Action::Send(i)
                    &&& final(self)@ == (ConnectionView {
                        watched: old(self)@.watched.update(i as int, false),
                        sending: Some(i as int),
                        closed: false,
                    })
                },
                Event::Sent => {
                    let i = old(self)@.sending->0;
                    &&& action == Action::Watch(i as usize)
                    &&& final(self)@ == ConnectionView::waiting(old(self)@.watched.len())
                },
                Event::Failed => {
                    &&& action == Action::Close
                    &&& final(self)@ == (ConnectionView {
                        watched: old(self)@.watched,
                        sending: None,
                        closed: true,
                    })
                },
                Event::Idle => {
                    &&& action == Action::Close
                    &&& final(self)@ == (ConnectionView {
                        watched: old(self)@.watched,
                        sending: None,
                        closed: true,
                    })
                },
            },
    {
        match event {
            Event::Changed(i) => {
                self.watched[i] = false;
                self.sending = Some(i);
                Action::Send(i)
            },
            Event::Sent => {
                let action = match self.sending {
                    Some(i) => {
                        self.watched[i] = true;
                        Action::Watch(i)
                    },
                    None => Action::Close,
                };
                self.sending = None;
                assert(self@ =~= ConnectionView::waiting(old(self)@.watched.len()));
                proof {
                    law_what_a_waiting_connection_expects(*self);
                }
                action
            },
            Event::Failed | Event::Idle => {
                self.sending = None;
                self.closed = true;
                Action::Close
            },
        }
    }
}

/// A connection that still serves its streams finds nothing to wait for only where it has none: it
/// is given up for want of streams or because a send failed, and for no other reason.
pub proof fn law_idle_only_without_streams(conn: Connection)
    requires
        conn.wf(),
        conn.expects(Event::Idle),
    ensures
        conn@.watched.len() == 0,
{
    if conn@.watched.len() > 0 {
        assert(conn@.watched[0]);
    }
}

/// Of a connection that serves its streams and sends none, every stream can have news, and nothing
/// else can happen to it but that it has no streams at all.
pub proof fn law_what_a_waiting_connection_expects(conn: Connection)
    requires
        !conn@.closed,
        conn@.sending is None,
        forall|i: int| 0 <= i < conn@.watched.len() ==> #[trigger] conn@.watched[i],
    ensures
        forall|i: usize| #[trigger]
            conn.expects(Event::Changed(i)) <==> i < conn@.watched.len(),
        !conn.expects(Event::Sent),
        !conn.expects(Event::Failed),
        conn.expects(Event::Idle) <==> conn@.watched.len() == 0,
{
    if conn@.watched.len() > 0 {
        assert(conn@.watched[0]);
    }
}

/// Of a connection that sends a stream, all that can happen is that the stream is sent or cannot be.
pub proof fn law_what_a_sending_connection_expects(conn: Connection)
    requires
        !conn@.closed,
        conn@.sending is Some,
    ensures
        conn.expects(Event::Sent),
        conn.expects(Event::Failed),
        !conn.expects(Event::Idle),
        forall|i: usize| !#[trigger] conn.expects(Event::Changed(i)),
{
}

/// Nothing happens any more to a connection that was given up.
pub proof fn law_closed_connection_expects_nothing(conn: Connection, event: Event)
    requires
        conn@.closed,
    ensures
        !conn.expects(event),
{
}

/// A connection that waits is one that serves its `n` streams, sends none, and waits for news of each.
pub proof fn law_waiting_leaves_out_no_stream(n: nat)
    ensures
        !ConnectionView::waiting(n).closed,
        ConnectionView::waiting(n).sending is None,
        ConnectionView::waiting(n).watched.len() == n,
        forall|i: int| 0 <= i < n ==> #[trigger] ConnectionView::waiting(n).watched[i],
{
}

/// A connection is well-formed exactly where the stream that it sends is one of its own, and where, as
/// long as it serves them, it waits for news of every stream but that one.
pub proof fn law_what_is_well_formed(conn: Connection)
    ensures
        conn.wf() <==> {
            &&& (conn@.sending matches Some(i) ==> 0 <= i < conn@.watched.len())
            &&& conn@.closed || forall|i: int|
                0 <= i < conn@.watched.len() ==> (#[trigger] conn@.watched[i] <==> conn@.sending
                    != Some(i))
        },
{
}

} // verus!
