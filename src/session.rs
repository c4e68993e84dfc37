use vstd::prelude::*;

verus! {

/// Where one identity's session stands.
#[derive(Debug, Clone, Copy, PartialEq, Eq, Structural)]
pub enum SessionState {
    /// A join has been asked for and not yet decided.
    Joining,
    /// Registered; the forwarding loop runs.
    Active,
    /// Over; the identity's slot has been freed (or was never taken).
    Terminated,
}

/// What the transport and the subscriber channel report to a session.
#[derive(Debug, Clone, Copy, PartialEq, Eq, Structural)]
pub enum SessionEvent {
    /// Registration succeeded.
    Admitted,
    /// Registration or authentication failed.
    Refused,
    /// A message came out of the subscriber channel.
    MessageArrived,
    /// Writing to the client's outbound stream failed.
    WriteFailed,
    /// The subscriber channel was closed.
    ChannelClosed,
    /// The client closed its stream.
    StreamClosed,
}

/// What the forwarding loop must do next.
#[derive(Debug, Clone, Copy, PartialEq, Eq, Structural)]
pub enum SessionAction {
    /// Nothing.
    Idle,
    /// Write the message just received onto the outbound stream.
    Forward,
    /// Remove the identity from the registry.
    Unregister,
}

impl SessionState {
    /// Whether the event ends a running session.
    pub open spec fn ends_session(event: SessionEvent) -> bool {
        event is WriteFailed || event is ChannelClosed || event is StreamClosed
    }

    /// The next state and action. A session becomes active only on admission
    /// and forwards each message it receives while active; any failure of the
    /// stream or the channel terminates it, and entering termination from the
    /// active state always unregisters. A terminated session stays so.
    pub fn step(self, event: SessionEvent) -> (r: (SessionState, SessionAction))
        ensures
            r.0 is Active <==> (self is Joining && event is Admitted) || (self is Active
                && !Self::ends_session(event)),
            r.0 is Joining <==> self is Joining && !(event is Admitted || event is Refused),
            r.1 is Forward <==> self is Active && event is MessageArrived,
            r.1 is Unregister <==> self is Active && Self::ends_session(event),
            r.1 is Unregister <==> self is Active && r.0 is Terminated,
    {
        match self {
            SessionState::Joining => match event {
                SessionEvent::Admitted => (SessionState::Active, SessionAction::Idle),
                SessionEvent::Refused => (SessionState::Terminated, SessionAction::Idle),
                _ => (SessionState::Joining, SessionAction::Idle),
            },
            SessionState::Active => match event {
                SessionEvent::MessageArrived => (SessionState::Active, SessionAction::Forward),
                SessionEvent::Admitted => (SessionState::Active, SessionAction::Idle),
                SessionEvent::Refused => (SessionState::Active, SessionAction::Idle),
                _ => (SessionState::Terminated, SessionAction::Unregister),
            },
            SessionState::Terminated => (SessionState::Terminated, SessionAction::Idle),
        }
    }
}

} // verus!
