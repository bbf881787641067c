//! The readiness events that the multiplexer reports, and what the event
//! loop does with each.

use vstd::prelude::*;

verus! {

#[derive(Debug, Clone, Copy, PartialEq, Eq, Structural)]
pub struct Event {
    pub fd: i32,
    /// The kind of readiness watched for (read or write).
    pub filter: i16,
    /// The peer has closed its end.
    pub connection_closed: bool,
    /// Bytes can be read now.
    pub has_data: bool,
}

impl Event {
    pub fn new(fd: i32, filter: i16) -> (r: Self)
        ensures
            r == (Event { fd, filter, connection_closed: false, has_data: false }),
    {
        Event { fd, filter, connection_closed: false, has_data: false }
    }
}

/// What the event loop does for one event.
#[derive(Debug, Clone, Copy, PartialEq, Eq, Structural)]
pub enum EventAction {
    /// Accept a new client on the listener and register it.
    Accept,
    /// Serve the client's pipelined requests, then drop the session if
    /// `close` is set.
    Serve { close: bool },
    /// Drop the client's session, which closes its socket.
    Close,
    /// Nothing to do.
    Ignore,
}

/// The action for an event: the listener accepts; a client with data is
/// served, then dropped if its peer closed; a client whose peer closed is dropped.
pub open spec fn action_of(event: Event, listener_fd: i32) -> EventAction {
    if event.fd == listener_fd {
        EventAction::Accept
    } else if event.has_data {
        EventAction::Serve { close: event.connection_closed }
    } else if event.connection_closed {
        EventAction::Close
    } else {
        EventAction::Ignore
    }
}

pub fn action_for(event: &Event, listener_fd: i32) -> (r: EventAction)
    ensures
        r == action_of(*event, listener_fd),
{
    if event.fd == listener_fd {
        EventAction::Accept
    } else if event.has_data {
        EventAction::Serve { close: event.connection_closed }
    } else if event.connection_closed {
        EventAction::Close
    } else {
        EventAction::Ignore
    }
}

} // verus!
