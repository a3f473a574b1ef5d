//! The consumer's reliability decisions: an explicit connection state
//! machine — connected, disconnected with backoff, reconnecting — with
//! bounded exponential backoff and jitter.  The surrounding application
//! performs the pulls, sleeps and reconnects; every decision is made here.
use vstd::prelude::*;

verus! {

/// How many reconnection attempts are made before giving up.
pub const MAX_RECONNECT_RETRIES: u32 = 8;

/// The backoff before the first reconnection attempt, in milliseconds.
pub const BASE_BACKOFF_MILLIS: u64 = 500;

/// The ceiling every backoff is capped at, in milliseconds.
pub const MAX_BACKOFF_MILLIS: u64 = 60000;

/// Where the consumer's connection stands.
#[derive(Clone, Copy, Debug, PartialEq, Eq, Structural)]
pub enum ConnState {
    /// Deliveries are flowing.
    Connected,
    /// The connection is lost; the consumer is waiting out a backoff before
    /// attempt number `retries + 1`.
    Disconnected { retries: u32 },
    /// A reconnection attempt is under way.
    Reconnecting { retries: u32 },
    /// Every allowed attempt failed; the consumer stops.
    Failed,
}

/// What the outside world reports back.
#[derive(Clone, Copy, Debug, PartialEq, Eq, Structural)]
pub enum ConnEvent {
    /// A pull completed (a delivery arrived and was handled).
    PullOk,
    /// A pull failed with a connection-level error.
    PullError,
    /// The backoff sleep has elapsed.
    BackoffElapsed,
    /// A reconnection attempt succeeded.
    ReconnectOk,
    /// A reconnection attempt failed.
    ReconnectFailed,
}

/// What the application must do next.
#[derive(Clone, Copy, Debug, PartialEq, Eq, Structural)]
pub enum ConnAction {
    /// Pull the next delivery.
    Pull,
    /// Sleep this many milliseconds, then report `BackoffElapsed`.
    Sleep { millis: u64 },
    /// Attempt to reconnect, then report the outcome.
    Reconnect,
    /// Give up and terminate.
    Stop,
}

/// The backoff before attempt number `retries + 1`: doubling from the base,
/// capped at the ceiling.
pub open spec fn spec_backoff(retries: u32) -> u64
    decreases retries,
{
    if retries == 0 {
        BASE_BACKOFF_MILLIS
    } else {
        let prev = spec_backoff((retries - 1) as u32);
        if 2 * prev <= MAX_BACKOFF_MILLIS {
            (2 * prev) as u64
        } else {
            MAX_BACKOFF_MILLIS
        }
    }
}

/// Backoffs stay between the base and the ceiling, and never shrink.
pub proof fn lemma_backoff_bounded(retries: u32)
    ensures
        BASE_BACKOFF_MILLIS <= spec_backoff(retries) <= MAX_BACKOFF_MILLIS,
        retries > 0 ==> spec_backoff((retries - 1) as u32) <= spec_backoff(retries),
    decreases retries,
{
    if retries > 0 {
        lemma_backoff_bounded((retries - 1) as u32);
    }
}

/// The wait actually slept: at least half the backoff, at most the whole of
/// it, the spread filled from the caller's jitter.
pub open spec fn spec_wait(retries: u32, jitter: u64) -> u64 {
    (spec_backoff(retries) / 2 + (jitter as int) % (spec_backoff(retries) as int / 2 + 1)) as u64
}

/// A slept wait never exceeds the ceiling, whatever the jitter.
pub proof fn lemma_wait_bounded(retries: u32, jitter: u64)
    ensures
        spec_backoff(retries) / 2 <= spec_wait(retries, jitter) <= spec_backoff(retries),
        spec_wait(retries, jitter) <= MAX_BACKOFF_MILLIS,
{
    lemma_backoff_bounded(retries);
}

/// One step of the connection state machine: what the next state and the
/// next action are for each state and event.  A pull error starts the
/// backoff ladder; each failed reconnection climbs it; the attempt after
/// the last allowed failure gives up.  An event that does not belong to the
/// current state leaves the state alone and restates its pending action.
pub open spec fn spec_broker_step(s: ConnState, e: ConnEvent, jitter: u64) -> (ConnState, ConnAction) {
    match (s, e) {
        (ConnState::Connected, ConnEvent::PullError) => (
            ConnState::Disconnected { retries: 0 },
            ConnAction::Sleep { millis: spec_wait(0, jitter) },
        ),
        (ConnState::Connected, _) => (ConnState::Connected, ConnAction::Pull),
        (ConnState::Disconnected { retries }, ConnEvent::BackoffElapsed) => (
            ConnState::Reconnecting { retries },
            ConnAction::Reconnect,
        ),
        (ConnState::Disconnected { retries }, _) => (
            ConnState::Disconnected { retries },
            ConnAction::Sleep { millis: spec_wait(retries, jitter) },
        ),
        (ConnState::Reconnecting { retries }, ConnEvent::ReconnectOk) => (
            ConnState::Connected,
            ConnAction::Pull,
        ),
        (ConnState::Reconnecting { retries }, ConnEvent::ReconnectFailed) => {
            if retries + 1 >= MAX_RECONNECT_RETRIES {
                (ConnState::Failed, ConnAction::Stop)
            } else {
                (
                    ConnState::Disconnected { retries: (retries + 1) as u32 },
                    ConnAction::Sleep { millis: spec_wait((retries + 1) as u32, jitter) },
                )
            }
        },
        (ConnState::Reconnecting { retries }, _) => (
            ConnState::Reconnecting { retries },
            ConnAction::Reconnect,
        ),
        (ConnState::Failed, _) => (ConnState::Failed, ConnAction::Stop),
    }
}

/// A state the machine can actually be in: the retry counter never reaches
/// the allowed maximum while still waiting or retrying.
pub open spec fn state_wf(s: ConnState) -> bool {
    match s {
        ConnState::Disconnected { retries } => retries < MAX_RECONNECT_RETRIES,
        ConnState::Reconnecting { retries } => retries < MAX_RECONNECT_RETRIES,
        _ => true,
    }
}

/// Executable backoff computation, landing on [`spec_backoff`].
pub fn backoff_millis(retries: u32) -> (r: u64)
    ensures
        r == spec_backoff(retries),
{
    let mut k: u32 = 0;
    let mut b: u64 = BASE_BACKOFF_MILLIS;
    while k < retries
        invariant
            k <= retries,
            b == spec_backoff(k),
        decreases retries - k,
    {
        proof {
            lemma_backoff_bounded(k);
        }
        b = if 2 * b <= MAX_BACKOFF_MILLIS {
            2 * b
        } else {
            MAX_BACKOFF_MILLIS
        };
        k = k + 1;
    }
    b
}

/// One step of the connection state machine, exactly as
/// [`spec_broker_step`] describes.  The caller's `jitter` may be any value;
/// the slept wait always lies between half the current backoff and the
/// whole of it.  A well-formed state steps to a well-formed state.
pub fn broker_step(s: ConnState, e: ConnEvent, jitter: u64) -> (r: (ConnState, ConnAction))
    ensures
        r == spec_broker_step(s, e, jitter),
        state_wf(s) ==> state_wf(r.0),
        r.1 matches ConnAction::Sleep { millis } ==> millis <= MAX_BACKOFF_MILLIS,
{
    proof {
        match s {
            ConnState::Disconnected { retries } => lemma_wait_bounded(retries, jitter),
            ConnState::Reconnecting { retries } => {
                if retries + 1 < MAX_RECONNECT_RETRIES {
                    lemma_wait_bounded((retries + 1) as u32, jitter);
                }
            },
            _ => {},
        }
        lemma_wait_bounded(0, jitter);
    }
    match (s, e) {
        (ConnState::Connected, ConnEvent::PullError) => {
            let b = backoff_millis(0);
            proof {
                lemma_backoff_bounded(0);
            }
            (
                ConnState::Disconnected { retries: 0 },
                ConnAction::Sleep { millis: b / 2 + jitter % (b / 2 + 1) },
            )
        },
        (ConnState::Connected, _) => (ConnState::Connected, ConnAction::Pull),
        (ConnState::Disconnected { retries }, ConnEvent::BackoffElapsed) => (
            ConnState::Reconnecting { retries },
            ConnAction::Reconnect,
        ),
        (ConnState::Disconnected { retries }, _) => {
            let b = backoff_millis(retries);
            proof {
                lemma_backoff_bounded(retries);
            }
            (
                ConnState::Disconnected { retries },
                ConnAction::Sleep { millis: b / 2 + jitter % (b / 2 + 1) },
            )
        },
        (ConnState::Reconnecting { retries: _ }, ConnEvent::ReconnectOk) => (
            ConnState::Connected,
            ConnAction::Pull,
        ),
        (ConnState::Reconnecting { retries }, ConnEvent::ReconnectFailed) => {
            if retries >= MAX_RECONNECT_RETRIES - 1 {
                (ConnState::Failed, ConnAction::Stop)
            } else {
                let b = backoff_millis(retries + 1);
                proof {
                    lemma_backoff_bounded((retries + 1) as u32);
                }
                (
                    ConnState::Disconnected { retries: retries + 1 },
                    ConnAction::Sleep { millis: b / 2 + jitter % (b / 2 + 1) },
                )
            }
        },
        (ConnState::Reconnecting { retries }, _) => (
            ConnState::Reconnecting { retries },
            ConnAction::Reconnect,
        ),
        (ConnState::Failed, _) => (ConnState::Failed, ConnAction::Stop),
    }
}

} // verus!
