//! What a connection's session does with each thing the transport hands it.
//!
//! The session itself performs no input or output: the caller reads from the
//! transport, hands over what came, and carries out the action it gets back.

use crate::cursor::ByteCursor;
use crate::packets::{DecodeError, PacketFrom, Packets, PacketsView};
use vstd::prelude::*;

verus! {

/// Where a session stands.
#[derive(Debug, Clone, Copy, PartialEq, Eq, Structural)]
pub enum SessionState {
    /// The connection is there and nothing has been read from it.
    Accepted,
    /// Frames are being read and answered.
    Serving,
    /// Nothing more is read.
    Closed,
}

/// What the transport handed over when the session asked for a frame.
#[derive(Debug, Clone, PartialEq, Eq)]
pub enum Event {
    /// A binary message, with its payload.
    Frame(Vec<u8>),
    /// A message of another kind.
    NotBinary,
    /// The peer has closed the connection, now or earlier.
    PeerClosed,
    /// Reading failed for any other reason.
    ReadFailed,
}

/// The mathematical value of an [`Event`].
pub enum EventView {
    Frame(Seq<u8>),
    NotBinary,
    PeerClosed,
    ReadFailed,
}

impl View for Event {
    type V = EventView;

    open spec fn view(&self) -> EventView {
        match self {
            Event::Frame(bytes) => EventView::Frame(bytes@),
            Event::NotBinary => EventView::NotBinary,
            Event::PeerClosed => EventView::PeerClosed,
            Event::ReadFailed => EventView::ReadFailed,
        }
    }
}

/// What the caller is to do next.
#[derive(Debug, Clone, PartialEq, Eq)]
pub enum Action {
    /// React to this packet, then read on.
    Deliver(Packets),
    /// Report a packet of no known kind, then read on.
    ReportUnrecognized,
    /// Report a frame that is no packet, drop it, then read on.
    Discard(DecodeError),
    /// Report a message that was not binary, then read on.
    Skip,
    /// End the session; nothing went wrong.
    Disconnect,
    /// End the session and hand the transport's error to whoever started it.
    Fail,
    /// The session has ended already: do nothing.
    Stop,
}

/// The mathematical value of an [`Action`].
pub enum ActionView {
    Deliver(PacketsView),
    ReportUnrecognized,
    Discard(DecodeError),
    Skip,
    Disconnect,
    Fail,
    Stop,
}

impl View for Action {
    type V = ActionView;

    open spec fn view(&self) -> ActionView {
        match self {
            Action::Deliver(p) => ActionView::Deliver(p@),
            Action::ReportUnrecognized => ActionView::ReportUnrecognized,
            Action::Discard(e) => ActionView::Discard(*e),
            Action::Skip => ActionView::Skip,
            Action::Disconnect => ActionView::Disconnect,
            Action::Fail => ActionView::Fail,
            Action::Stop => ActionView::Stop,
        }
    }
}

/// What is done with the payload of one frame: the packet it starts with is
/// delivered, an unrecognized one is reported, and a payload that is no
/// packet is dropped. What follows the packet in the frame is ignored.
pub open spec fn frame_action(payload: Seq<u8>) -> ActionView {
    match Packets::parse(payload) {
        Ok((PacketsView::Unrecognized, _)) => ActionView::ReportUnrecognized,
        Ok((packet, _)) => ActionView::Deliver(packet),
        Err(e) => ActionView::Discard(e),
    }
}

/// What an event asks for, in a session that has not ended.
pub open spec fn event_action(event: EventView) -> ActionView {
    match event {
        EventView::Frame(payload) => frame_action(payload),
        EventView::NotBinary => ActionView::Skip,
        EventView::PeerClosed => ActionView::Disconnect,
        EventView::ReadFailed => ActionView::Fail,
    }
}

/// Where a session stands after an event: it serves until the peer closes
/// or reading fails, and once closed it stays closed.
pub open spec fn next_state(state: SessionState, event: EventView) -> SessionState {
    if state == SessionState::Closed {
        SessionState::Closed
    } else {
        match event {
            EventView::Frame(_) | EventView::NotBinary => SessionState::Serving,
            EventView::PeerClosed | EventView::ReadFailed => SessionState::Closed,
        }
    }
}

/// What the caller is to do after an event.
pub open spec fn next_action(state: SessionState, event: EventView) -> ActionView {
    if state == SessionState::Closed {
        ActionView::Stop
    } else {
        event_action(event)
    }
}

/// Decides what to do with the payload of one frame.
pub fn read_frame(payload: &[u8]) -> (action: Action)
    ensures
        action@ == frame_action(payload@),
{
    let mut cursor = ByteCursor::new(payload);
    assert(cursor.rest() =~= payload@);
    match Packets::decode(&mut cursor) {
        Ok(Packets::Unrecognized) => Action::ReportUnrecognized,
        Ok(packet) => Action::Deliver(packet),
        Err(e) => Action::Discard(e),
    }
}

/// Takes one event and says where the session stands now and what the
/// caller is to do.
pub fn step(state: SessionState, event: Event) -> (next: (SessionState, Action))
    ensures
        next.0 == next_state(state, event@),
        next.1@ == next_action(state, event@),
{
    match state {
        SessionState::Closed => (SessionState::Closed, Action::Stop),
        _ => match event {
            Event::Frame(payload) => (SessionState::Serving, read_frame(payload.as_slice())),
            Event::NotBinary => (SessionState::Serving, Action::Skip),
            Event::PeerClosed => (SessionState::Closed, Action::Disconnect),
            Event::ReadFailed => (SessionState::Closed, Action::Fail),
        },
    }
}

/// Whether an action ends the session.
pub open spec fn ends_session(action: ActionView) -> bool {
    action is Disconnect || action is Fail || action is Stop
}

/// A frame never ends the session, whatever it holds; only the transport
/// does. The session is closed exactly when the action says to end it.
pub proof fn lemma_frames_never_close(state: SessionState, event: EventView)
    ensures
        next_state(state, event) == SessionState::Closed <==> ends_session(
            next_action(state, event),
        ),
        state != SessionState::Closed && (event is Frame || event is NotBinary) ==> next_state(
            state,
            event,
        ) == SessionState::Serving,
{
}

} // verus!
