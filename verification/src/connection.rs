//! The life of one connection, as a state machine.
//!
//! The driver that owns the socket reports what happened as an event and
//! learns from `next_state` where the connection stands. Parsing strictly
//! precedes dispatch, and dispatch strictly precedes sending.

use vstd::prelude::*;

verus! {

/// Where a connection stands.
#[derive(Debug, Clone, Copy, PartialEq, Eq, Structural)]
pub enum ConnectionState {
    /// The connection was accepted; nothing was read yet.
    Accepted,
    /// A request is being read.
    ParsingRequest,
    /// A request was read and its handler is at work.
    Dispatching,
    /// The response is being written.
    SendingResponse,
    /// The connection ended in good order.
    Closed,
    /// The connection was given up.
    Failed,
}

/// What happened on a connection.
#[derive(Debug, Clone, Copy, PartialEq, Eq, Structural)]
pub enum ConnectionEvent {
    /// Work on the accepted connection began.
    Started,
    /// A whole request was read.
    RequestParsed,
    /// The request line was refused.
    RequestRefused,
    /// The peer closed the stream where a request would begin.
    PeerClosed,
    /// The handler produced its response.
    ResponseReady,
    /// The response was written out in full.
    ResponseSent,
    /// Reading, writing, the file system or the compression failed.
    IoFailed,
}

/// Whether nothing more happens in `state`.
pub open spec fn is_final(state: ConnectionState) -> bool {
    state == ConnectionState::Closed || state == ConnectionState::Failed
}

/// The state that follows `state` on `event`.
///
/// `Closed` and `Failed` are final. From any other state a failure leads to
/// `Failed`, and so does an event that the state does not await. A refused
/// request line fails the connection before anything is sent. Once a
/// response is sent, a connection that is kept open reads the next request
/// and any other is closed.
pub open spec fn next_state_of(
    state: ConnectionState,
    event: ConnectionEvent,
    keep_open: bool,
) -> ConnectionState {
    match (state, event) {
        (ConnectionState::Closed, _) => ConnectionState::Closed,
        (ConnectionState::Failed, _) => ConnectionState::Failed,
        (ConnectionState::Accepted, ConnectionEvent::Started) => ConnectionState::ParsingRequest,
        (ConnectionState::ParsingRequest, ConnectionEvent::RequestParsed) => {
            ConnectionState::Dispatching
        },
        (ConnectionState::ParsingRequest, ConnectionEvent::PeerClosed) => ConnectionState::Closed,
        (ConnectionState::Dispatching, ConnectionEvent::ResponseReady) => {
            ConnectionState::SendingResponse
        },
        (ConnectionState::SendingResponse, ConnectionEvent::ResponseSent) => if keep_open {
            ConnectionState::ParsingRequest
        } else {
            ConnectionState::Closed
        },
        _ => ConnectionState::Failed,
    }
}

/// The state that a connection reaches from `state` through `events`.
pub open spec fn state_after(
    state: ConnectionState,
    events: Seq<ConnectionEvent>,
    keep_open: bool,
) -> ConnectionState
    decreases events.len(),
{
    if events.len() == 0 {
        state
    } else {
        next_state_of(state_after(state, events.drop_last(), keep_open), events.last(), keep_open)
    }
}

/// The state that follows `state` on `event`.
pub fn next_state(state: ConnectionState, event: ConnectionEvent, keep_open: bool) -> (r:
    ConnectionState)
    ensures
        r == next_state_of(state, event, keep_open),
{
    match (state, event) {
        (ConnectionState::Closed, _) => ConnectionState::Closed,
        (ConnectionState::Failed, _) => ConnectionState::Failed,
        (ConnectionState::Accepted, ConnectionEvent::Started) => ConnectionState::ParsingRequest,
        (ConnectionState::ParsingRequest, ConnectionEvent::RequestParsed) => {
            ConnectionState::Dispatching
        },
        (ConnectionState::ParsingRequest, ConnectionEvent::PeerClosed) => ConnectionState::Closed,
        (ConnectionState::Dispatching, ConnectionEvent::ResponseReady) => {
            ConnectionState::SendingResponse
        },
        (ConnectionState::SendingResponse, ConnectionEvent::ResponseSent) => if keep_open {
            ConnectionState::ParsingRequest
        } else {
            ConnectionState::Closed
        },
        _ => ConnectionState::Failed,
    }
}

/// A connection that is closed or failed stays so, whatever happens.
pub proof fn law_final_states_are_final(
    state: ConnectionState,
    events: Seq<ConnectionEvent>,
    keep_open: bool,
)
    requires
        is_final(state),
    ensures
        state_after(state, events, keep_open) == state,
    decreases events.len(),
{
    if events.len() > 0 {
        law_final_states_are_final(state, events.drop_last(), keep_open);
    }
}

/// A connection whose request line is refused never sends: it fails at
/// once, and whatever follows, it is never in `SendingResponse`.
pub proof fn law_refused_request_is_never_answered(
    events: Seq<ConnectionEvent>,
    keep_open: bool,
)
    ensures
        next_state_of(
            ConnectionState::ParsingRequest,
            ConnectionEvent::RequestRefused,
            keep_open,
        ) == ConnectionState::Failed,
        state_after(ConnectionState::Failed, events, keep_open)
            != ConnectionState::SendingResponse,
{
    law_final_states_are_final(ConnectionState::Failed, events, keep_open);
}

/// A response is only ever sent for a request that was read: the event
/// that brings a connection into `SendingResponse` is `ResponseReady`, and
/// it finds the connection in `Dispatching`, which only `RequestParsed`
/// leads into, from `ParsingRequest`.
pub proof fn law_sending_follows_dispatch(
    state: ConnectionState,
    event: ConnectionEvent,
    keep_open: bool,
)
    ensures
        next_state_of(state, event, keep_open) == ConnectionState::SendingResponse ==> state
            == ConnectionState::Dispatching && event == ConnectionEvent::ResponseReady,
        next_state_of(state, event, keep_open) == ConnectionState::Dispatching ==> state
            == ConnectionState::ParsingRequest && event == ConnectionEvent::RequestParsed,
{
}

} // verus!
