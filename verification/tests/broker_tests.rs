use pipeline::broker::{
    backoff_millis, broker_step, ConnAction, ConnEvent, ConnState, MAX_RECONNECT_RETRIES,
};

#[test]
fn backoff_doubles_and_is_capped() {
    assert_eq!(backoff_millis(0), 500);
    assert_eq!(backoff_millis(1), 1000);
    assert_eq!(backoff_millis(2), 2000);
    assert_eq!(backoff_millis(6), 32000);
    assert_eq!(backoff_millis(7), 60000);
    assert_eq!(backoff_millis(20), 60000);
}

#[test]
fn pull_error_starts_a_bounded_backoff() {
    let (state, action) = broker_step(ConnState::Connected, ConnEvent::PullError, 12345);
    assert_eq!(state, ConnState::Disconnected { retries: 0 });
    match action {
        ConnAction::Sleep { millis } => assert!((250..=500).contains(&millis)),
        other => panic!("expected a sleep, got {other:?}"),
    }
}

#[test]
fn backoff_elapsed_leads_to_a_reconnect_attempt() {
    let (state, action) =
        broker_step(ConnState::Disconnected { retries: 3 }, ConnEvent::BackoffElapsed, 0);
    assert_eq!(state, ConnState::Reconnecting { retries: 3 });
    assert_eq!(action, ConnAction::Reconnect);
}

#[test]
fn successful_reconnect_resumes_pulling() {
    let (state, action) =
        broker_step(ConnState::Reconnecting { retries: 5 }, ConnEvent::ReconnectOk, 0);
    assert_eq!(state, ConnState::Connected);
    assert_eq!(action, ConnAction::Pull);
}

#[test]
fn failed_reconnects_climb_the_ladder_and_finally_give_up() {
    let (state, action) =
        broker_step(ConnState::Reconnecting { retries: 0 }, ConnEvent::ReconnectFailed, 7);
    assert_eq!(state, ConnState::Disconnected { retries: 1 });
    match action {
        ConnAction::Sleep { millis } => assert!((500..=1000).contains(&millis)),
        other => panic!("expected a sleep, got {other:?}"),
    }
    let last = MAX_RECONNECT_RETRIES - 1;
    let (state, action) =
        broker_step(ConnState::Reconnecting { retries: last }, ConnEvent::ReconnectFailed, 7);
    assert_eq!(state, ConnState::Failed);
    assert_eq!(action, ConnAction::Stop);
}

#[test]
fn steady_pulling_stays_connected() {
    let (state, action) = broker_step(ConnState::Connected, ConnEvent::PullOk, 0);
    assert_eq!(state, ConnState::Connected);
    assert_eq!(action, ConnAction::Pull);
}
