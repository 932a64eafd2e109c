use network::handshake::{
    handshake_message, incoming_handshake_step, outgoing_handshake_step, HandshakeStep,
    ReadOutcome, WriteOutcome,
};

#[test]
fn message_is_the_handshake_text() {
    assert_eq!(handshake_message(), b"handshake".to_vec());
}

#[test]
fn outgoing_steps() {
    assert_eq!(outgoing_handshake_step(&WriteOutcome::Written), HandshakeStep::Complete);
    assert_eq!(outgoing_handshake_step(&WriteOutcome::WouldBlock), HandshakeStep::Retry);
    assert_eq!(outgoing_handshake_step(&WriteOutcome::Failed), HandshakeStep::Failed);
}

#[test]
fn written_message_is_accepted() {
    let step = incoming_handshake_step(&ReadOutcome::Received(handshake_message()));
    assert_eq!(step, HandshakeStep::Complete);
}

#[test]
fn closed_connection_ends_handshake() {
    assert_eq!(incoming_handshake_step(&ReadOutcome::Received(Vec::new())), HandshakeStep::Closed);
}

#[test]
fn other_text_is_passed_over() {
    assert_eq!(incoming_handshake_step(&ReadOutcome::Received(b"hello".to_vec())), HandshakeStep::Retry);
    assert_eq!(incoming_handshake_step(&ReadOutcome::Received(b"hand".to_vec())), HandshakeStep::Retry);
    assert_eq!(
        incoming_handshake_step(&ReadOutcome::Received(b"handshake\n".to_vec())),
        HandshakeStep::Retry
    );
}

#[test]
fn bytes_that_are_not_text_are_reported() {
    assert_eq!(
        incoming_handshake_step(&ReadOutcome::Received(vec![0xff, 0xfe])),
        HandshakeStep::NotText
    );
}

#[test]
fn socket_states() {
    assert_eq!(incoming_handshake_step(&ReadOutcome::WouldBlock), HandshakeStep::Retry);
    assert_eq!(incoming_handshake_step(&ReadOutcome::Failed), HandshakeStep::Failed);
}
