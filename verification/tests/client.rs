use network::client::{after_connect_attempt, after_poll, poll_interval_seconds, ConnectStep, PollStep};

#[test]
fn connect_attempts() {
    assert_eq!(after_connect_attempt(true), ConnectStep::Connected);
    assert_eq!(after_connect_attempt(false), ConnectStep::RetryAfter(1));
}

#[test]
fn polls() {
    assert_eq!(after_poll(true), PollStep::Report);
    assert_eq!(after_poll(false), PollStep::Reconnect);
    assert_eq!(poll_interval_seconds(), 1);
}
