use worders::packets::{Ack, AckState, DecodeError, Packets, Place};
use worders::session::{read_frame, step, Action, Event, SessionState};

#[test]
fn a_frame_with_a_packet_is_delivered() {
    let frame = vec![0x02, 0x00, 0x01, 0x53, 0, 0, 0, 3, 0, 0, 0, 4];
    assert_eq!(read_frame(&frame), Action::Deliver(Packets::Place(Place::new(1, 'S', 3, 4))));
    assert_eq!(
        step(SessionState::Accepted, Event::Frame(frame.clone())),
        (SessionState::Serving, Action::Deliver(Packets::Place(Place::new(1, 'S', 3, 4))))
    );
    assert_eq!(
        step(SessionState::Serving, Event::Frame(frame)),
        (SessionState::Serving, Action::Deliver(Packets::Place(Place::new(1, 'S', 3, 4))))
    );
}

#[test]
fn what_follows_the_packet_in_a_frame_is_ignored() {
    let frame = vec![0x00, 0x00, 0x07, 0x01, 0xAA, 0xBB];
    assert_eq!(
        read_frame(&frame),
        Action::Deliver(Packets::Ack(Ack::new(7, AckState::Confirm)))
    );
}

#[test]
fn an_unrecognized_packet_is_reported_and_the_session_goes_on() {
    assert_eq!(read_frame(&[0x2A, 1, 2, 3]), Action::ReportUnrecognized);
    assert_eq!(
        step(SessionState::Serving, Event::Frame(vec![0xFF])),
        (SessionState::Serving, Action::ReportUnrecognized)
    );
}

#[test]
fn a_malformed_frame_is_dropped_and_the_session_goes_on() {
    assert_eq!(read_frame(&[]), Action::Discard(DecodeError::Truncated));
    assert_eq!(read_frame(&[0x02, 0x00]), Action::Discard(DecodeError::Truncated));
    assert_eq!(
        read_frame(&[1, 0x00, 0x07, 0x02, 0x00, 0x01, 0xFF, 0x00, 0x00, 0x05]),
        Action::Discard(DecodeError::InvalidUtf8)
    );
    assert_eq!(
        step(SessionState::Serving, Event::Frame(vec![0x03, 0x00])),
        (SessionState::Serving, Action::Discard(DecodeError::Truncated))
    );
}

#[test]
fn other_messages_are_skipped() {
    assert_eq!(
        step(SessionState::Accepted, Event::NotBinary),
        (SessionState::Serving, Action::Skip)
    );
    assert_eq!(
        step(SessionState::Serving, Event::NotBinary),
        (SessionState::Serving, Action::Skip)
    );
}

#[test]
fn a_closed_peer_ends_the_session_without_error() {
    for state in [SessionState::Accepted, SessionState::Serving] {
        assert_eq!(step(state, Event::PeerClosed), (SessionState::Closed, Action::Disconnect));
    }
}

#[test]
fn a_failed_read_ends_the_session_with_the_error() {
    for state in [SessionState::Accepted, SessionState::Serving] {
        assert_eq!(step(state, Event::ReadFailed), (SessionState::Closed, Action::Fail));
    }
}

#[test]
fn a_closed_session_stays_closed() {
    let events = vec![
        Event::Frame(vec![0x00, 0x00, 0x07, 0x01]),
        Event::NotBinary,
        Event::PeerClosed,
        Event::ReadFailed,
    ];
    for event in events {
        assert_eq!(step(SessionState::Closed, event), (SessionState::Closed, Action::Stop));
    }
}

#[test]
fn frames_are_handled_in_the_order_they_come() {
    let frames = vec![vec![0x00, 0x00, 0x01, 0x00], vec![0x09], vec![0x00, 0x00, 0x02, 0x02]];
    let mut state = SessionState::Accepted;
    let mut seen = Vec::new();
    for frame in frames {
        let (next, action) = step(state, Event::Frame(frame));
        state = next;
        seen.push(action);
    }
    assert_eq!(state, SessionState::Serving);
    assert_eq!(
        seen,
        vec![
            Action::Deliver(Packets::Ack(Ack::new(1, AckState::Success))),
            Action::ReportUnrecognized,
            Action::Deliver(Packets::Ack(Ack::new(2, AckState::Turn))),
        ]
    );
}
