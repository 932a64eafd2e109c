//! The decisions of the clients that connect out: whether to go on after an
//! attempt to connect, and what to do after asking a server for a value.
//! The socket work, and the waiting, stay with the caller.

use vstd::prelude::*;

verus! {

/// What a client does after an attempt to connect.
#[derive(Clone, Copy, Debug, PartialEq, Eq, Structural)]
pub enum ConnectStep {
    /// The connection is open: go on with it.
    Connected,
    /// Wait this many seconds, then try again.
    RetryAfter(u64),
}

/// What the demo client does after asking the server for its value.
#[derive(Clone, Copy, Debug, PartialEq, Eq, Structural)]
pub enum PollStep {
    /// Report the answer.
    Report,
    /// Connect again, and store the value again.
    Reconnect,
}

/// After an attempt to connect: go on when it connected, else wait one
/// second and try again, for as long as it takes.
pub fn after_connect_attempt(connected: bool) -> (step: ConnectStep)
    ensures
        step == if connected {
            ConnectStep::Connected
        } else {
            ConnectStep::RetryAfter(1)
        },
{
    if connected {
        ConnectStep::Connected
    } else {
        ConnectStep::RetryAfter(1)
    }
}

/// After asking the server for the value: report the answer when one came,
/// else connect again.
pub fn after_poll(answered: bool) -> (step: PollStep)
    ensures
        step == if answered {
            PollStep::Report
        } else {
            PollStep::Reconnect
        },
{
    if answered {
        PollStep::Report
    } else {
        PollStep::Reconnect
    }
}

/// How long the demo client waits, in seconds, between two questions.
pub fn poll_interval_seconds() -> (s: u64)
    ensures
        s == 1,
{
    1
}

} // verus!
