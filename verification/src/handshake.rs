//! The handshake that opens every connection between two nodes: the side
//! that connected out writes the handshake message, and the side that
//! accepted the connection reads until it has received that message.
//!
//! The socket work stays with the caller, which hands over the outcome of
//! each attempt to write or read and is told what to do next.

use vstd::prelude::*;
use vstd::utf8::valid_utf8;

verus! {

/// The bytes of the handshake message: the ASCII text `handshake`.
pub open spec fn handshake_bytes() -> Seq<u8> {
    seq![104u8, 97u8, 110u8, 100u8, 115u8, 104u8, 97u8, 107u8, 101u8]
}

/// The outcome of one attempt to write the handshake message.
pub enum WriteOutcome {
    /// Some bytes were written.
    Written,
    /// The socket was not ready.
    WouldBlock,
    /// The write failed.
    Failed,
}

/// The outcome of one attempt to read from the connection.
pub enum ReadOutcome {
    /// These bytes were read (none: the peer closed the connection).
    Received(Vec<u8>),
    /// The socket was not ready.
    WouldBlock,
    /// The read failed.
    Failed,
}

/// What to do after an attempt.
#[derive(Clone, Copy, Debug, PartialEq, Eq, Structural)]
pub enum HandshakeStep {
    /// The handshake is done.
    Complete,
    /// Wait for the socket and try again.
    Retry,
    /// The peer closed the connection: the handshake failed.
    Closed,
    /// The attempt failed: report its error.
    Failed,
    /// The bytes read are not UTF-8 text.
    NotText,
}

/// The message that the connecting side writes.
pub fn handshake_message() -> (m: Vec<u8>)
    ensures
        m@ == handshake_bytes(),
{
    let m: Vec<u8> = vec![104u8, 97u8, 110u8, 100u8, 115u8, 104u8, 97u8, 107u8, 101u8];
    assert(m@ =~= handshake_bytes());
    m
}

/// What the connecting side does after an attempt to write the message:
/// any write completes the handshake, a socket that was not ready is tried
/// again, and a failure ends it.
pub fn outgoing_handshake_step(outcome: &WriteOutcome) -> (step: HandshakeStep)
    ensures
        step == match outcome {
            WriteOutcome::Written => HandshakeStep::Complete,
            WriteOutcome::WouldBlock => HandshakeStep::Retry,
            WriteOutcome::Failed => HandshakeStep::Failed,
        },
{
    match outcome {
        WriteOutcome::Written => HandshakeStep::Complete,
        WriteOutcome::WouldBlock => HandshakeStep::Retry,
        WriteOutcome::Failed => HandshakeStep::Failed,
    }
}

/// The step that the accepting side takes after reading `bytes`.
pub open spec fn incoming_step_for(bytes: Seq<u8>) -> HandshakeStep {
    if bytes.len() == 0 {
        HandshakeStep::Closed
    } else if bytes == handshake_bytes() {
        HandshakeStep::Complete
    } else if !valid_utf8(bytes) {
        HandshakeStep::NotText
    } else {
        HandshakeStep::Retry
    }
}

/// Whether `bytes` are UTF-8 text, as `std::str::from_utf8` decides it.
/// The claim is that `from_utf8` succeeds on exactly the byte strings that
/// vstd's `valid_utf8` describes, as its documentation says ("Converts a
/// slice of bytes to a string slice ... if the slice is not valid UTF-8,
/// returns an error").
#[verifier::external_body]
fn is_utf8(bytes: &[u8]) -> (r: bool)
    ensures
        r == valid_utf8(bytes@),
{
    std::str::from_utf8(bytes).is_ok()
}

fn is_handshake(bytes: &Vec<u8>) -> (r: bool)
    ensures
        r == (bytes@ == handshake_bytes()),
{
    let expected = handshake_message();
    if bytes.len() != expected.len() {
        return false;
    }
    let mut i: usize = 0;
    while i < bytes.len()
        invariant
            i <= bytes.len(),
            bytes.len() == expected.len(),
            expected@ == handshake_bytes(),
            forall|j: int| 0 <= j < i ==> bytes@[j] == expected@[j],
        decreases bytes.len() - i,
    {
        if bytes[i] != expected[i] {
            return false;
        }
        i = i + 1;
    }
    assert(bytes@ =~= expected@);
    true
}

/// What the accepting side does after an attempt to read: the closed
/// connection ends the handshake, the message completes it, bytes that are
/// not text stop it, any other text is passed over and reading goes on, a
/// socket that was not ready is tried again, and a failure ends it.
pub fn incoming_handshake_step(outcome: &ReadOutcome) -> (step: HandshakeStep)
    ensures
        step == match outcome {
            ReadOutcome::Received(bytes) => incoming_step_for(bytes@),
            ReadOutcome::WouldBlock => HandshakeStep::Retry,
            ReadOutcome::Failed => HandshakeStep::Failed,
        },
{
    match outcome {
        ReadOutcome::Received(bytes) => {
            if bytes.len() == 0 {
                HandshakeStep::Closed
            } else if is_handshake(bytes) {
                HandshakeStep::Complete
            } else if !is_utf8(bytes.as_slice()) {
                HandshakeStep::NotText
            } else {
                HandshakeStep::Retry
            }
        },
        ReadOutcome::WouldBlock => HandshakeStep::Retry,
        ReadOutcome::Failed => HandshakeStep::Failed,
    }
}

/// The accepting side completes the handshake on reading exactly the
/// message that the connecting side writes.
pub proof fn law_message_is_accepted()
    ensures
        incoming_step_for(handshake_bytes()) == HandshakeStep::Complete,
        forall|bytes: Seq<u8>|
            #[trigger] incoming_step_for(bytes) == HandshakeStep::Complete <==> bytes
                == handshake_bytes(),
{
}

} // verus!

verus! {

/// The message is the text `handshake`, byte for byte.
pub proof fn law_message_is_the_handshake_text()
    ensures
        handshake_bytes().len() == "handshake"@.len(),
        forall|i: int|
            0 <= i < handshake_bytes().len() ==> handshake_bytes()[i] as char == "handshake"@[i],
{
    reveal_strlit("handshake");
}

/// What the accepting side does with the bytes of one read: an empty read
/// (the peer closed the connection) ends the handshake; the message
/// completes it; any other UTF-8 text, whatever its characters, is passed
/// over and reading goes on; and bytes that are not UTF-8 stop it.
pub proof fn law_incoming_step_by_bytes(bytes: Seq<u8>)
    ensures
        bytes.len() == 0 ==> incoming_step_for(bytes) == HandshakeStep::Closed,
        bytes == handshake_bytes() ==> incoming_step_for(bytes) == HandshakeStep::Complete,
        bytes.len() > 0 && bytes != handshake_bytes() && valid_utf8(bytes) ==> incoming_step_for(
            bytes,
        ) == HandshakeStep::Retry,
        bytes.len() > 0 && !valid_utf8(bytes) ==> incoming_step_for(bytes)
            == HandshakeStep::NotText,
{
    if bytes == handshake_bytes() {
        lemma_ascii_is_utf8(bytes);
    }
}

/// Bytes below 128 (ASCII) are UTF-8.
proof fn lemma_ascii_is_utf8(bytes: Seq<u8>)
    requires
        forall|i: int| 0 <= i < bytes.len() ==> #[trigger] bytes[i] < 128,
    ensures
        valid_utf8(bytes),
    decreases bytes.len(),
{
    if bytes.len() > 0 {
        let rest = vstd::utf8::pop_first_scalar(bytes);
        assert(rest =~= bytes.subrange(1, bytes.len() as int));
        lemma_ascii_is_utf8(rest);
    }
}

} // verus!
