use vstd::prelude::*;

verus! {

/// The HTTP method of one probe.
#[derive(Debug, Clone, Copy, PartialEq, Eq, Structural)]
pub enum Method {
    Head,
    Get,
}

/// What one probe of a URL came back with.
#[derive(Debug, Clone)]
pub enum Probe {
    /// The server answered with this HTTP status.
    Status(u16),
    /// No answer: DNS, connection, TLS or timeout failure, with its reason.
    Transport(String),
}

/// The classified result of checking one URL.
#[derive(Debug, Clone)]
pub enum CheckStatus {
    Reachable,
    Unreachable(u16),
    TransportFailure(String),
}

impl CheckStatus {
    /// A second status equal to this one.
    pub fn duplicate(&self) -> (r: CheckStatus)
        ensures
            r == *self,
    {
        match self {
            CheckStatus::Reachable => CheckStatus::Reachable,
            CheckStatus::Unreachable(c) => CheckStatus::Unreachable(*c),
            CheckStatus::TransportFailure(s) => CheckStatus::TransportFailure(s.clone()),
        }
    }
}

/// What the checker of one URL does next.
#[derive(Debug, Clone)]
pub enum CheckAction {
    /// Wait `delay_ms` milliseconds, then probe with `method`.
    Send { method: Method, delay_ms: u64 },
    /// Stop: the URL is classified.
    Finish(CheckStatus),
}

/// How hard the checker tries before it gives up on a URL.
#[derive(Debug, Clone, Copy)]
pub struct CheckPolicy {
    /// Probes that may end in a transport failure before the URL is
    /// classified as one (0 counts as 1).
    pub max_attempts: u32,
    /// The wait before the first retry; each further retry waits twice as
    /// long.
    pub base_delay_ms: u64,
}

/// Where the checker of one URL stands.
#[derive(Debug, Clone, Copy)]
pub struct CheckState {
    /// The method of the next probe.
    pub method: Method,
    /// Probes so far that ended in a transport failure.
    pub attempts: u32,
}

/// The status an HTTP status code is classified as: 200 to 399 reachable,
/// every other code unreachable with that code.
pub open spec fn classified(code: u16) -> CheckStatus {
    if 200 <= code <= 399 {
        CheckStatus::Reachable
    } else {
        CheckStatus::Unreachable(code)
    }
}

/// Whether a status says that the server refuses the HEAD method.
pub open spec fn rejects_head(code: u16) -> bool {
    code == 405 || code == 501
}

/// `base` doubled `n` times.
pub open spec fn doubled(base: int, n: nat) -> int
    decreases n,
{
    if n == 0 {
        base
    } else {
        2 * doubled(base, (n - 1) as nat)
    }
}

/// The wait before the retry that follows `n` failed probes: `base` doubled
/// `n - 1` times, held at `u64::MAX`.
pub open spec fn backoff(base: u64, n: nat) -> u64 {
    let d = doubled(base as int, (n - 1) as nat);
    if d >= u64::MAX {
        u64::MAX
    } else {
        d as u64
    }
}

/// The probes that are left at most, counting a switch from HEAD to GET.
pub open spec fn budget(state: CheckState, policy: CheckPolicy) -> int {
    2 * (policy.max_attempts - state.attempts) + if state.method == Method::Head {
        1int
    } else {
        0int
    }
}

/// Probes that may fail before the URL is given up.
pub open spec fn attempt_limit(policy: CheckPolicy) -> int {
    if policy.max_attempts == 0 {
        1
    } else {
        policy.max_attempts as int
    }
}

/// The next state and action of the checker at `state` after `probe`.
pub open spec fn step(state: CheckState, probe: Probe, policy: CheckPolicy) -> (
    CheckState,
    CheckAction,
) {
    match probe {
        Probe::Status(code) => if state.method == Method::Head && rejects_head(code) {
            (
                CheckState { method: Method::Get, attempts: state.attempts },
                CheckAction::Send { method: Method::Get, delay_ms: 0 },
            )
        } else {
            (state, CheckAction::Finish(classified(code)))
        },
        Probe::Transport(reason) => if state.attempts + 1 < attempt_limit(policy) {
            (
                CheckState { method: state.method, attempts: (state.attempts + 1) as u32 },
                CheckAction::Send {
                    method: state.method,
                    delay_ms: backoff(policy.base_delay_ms, (state.attempts + 1) as nat),
                },
            )
        } else {
            (state, CheckAction::Finish(CheckStatus::TransportFailure(reason)))
        },
    }
}

/// Classifies an HTTP status code.
pub fn classify(code: u16) -> (r: CheckStatus)
    ensures
        r == classified(code),
{
    if 200 <= code && code <= 399 {
        CheckStatus::Reachable
    } else {
        CheckStatus::Unreachable(code)
    }
}

proof fn lemma_doubled_nonneg(base: int, n: nat)
    requires
        base >= 0,
    ensures
        doubled(base, n) >= 0,
    decreases n,
{
    if n > 0 {
        lemma_doubled_nonneg(base, (n - 1) as nat);
    }
}

/// The wait before the retry that follows `failures` failed probes.
pub fn retry_delay(base_delay_ms: u64, failures: u32) -> (r: u64)
    requires
        failures >= 1,
    ensures
        r == backoff(base_delay_ms, failures as nat),
{
    let mut d: u64 = base_delay_ms;
    let mut i: u32 = 1;
    while i < failures
        invariant
            1 <= i <= failures,
            d as int == if doubled(base_delay_ms as int, (i - 1) as nat) >= u64::MAX {
                u64::MAX as int
            } else {
                doubled(base_delay_ms as int, (i - 1) as nat)
            },
        decreases failures - i,
    {
        proof {
            lemma_doubled_nonneg(base_delay_ms as int, (i - 1) as nat);
            assert(doubled(base_delay_ms as int, i as nat) == 2 * doubled(
                base_delay_ms as int,
                (i - 1) as nat,
            ));
        }
        d = match d.checked_mul(2) {
            Some(x) => x,
            None => u64::MAX,
        };
        i = i + 1;
    }
    d
}

/// The state in which the checker of a URL starts, and its first probe: a
/// HEAD request, at once.
pub fn start() -> (r: (CheckState, CheckAction))
    ensures
        r.0 == (CheckState { method: Method::Head, attempts: 0 }),
        r.1 == (CheckAction::Send { method: Method::Head, delay_ms: 0 }),
{
    (CheckState { method: Method::Head, attempts: 0 }, CheckAction::Send { method: Method::Head, delay_ms: 0 })
}

/// The checker's decision after one probe: switch to GET where the server
/// refuses HEAD, classify a status, retry a transport failure after an
/// exponential backoff while attempts are left, or give up with that failure.
/// Each retry spends budget, so a check ends after finitely many probes.
pub fn on_probe(state: &CheckState, probe: Probe, policy: &CheckPolicy) -> (r: (
    CheckState,
    CheckAction,
))
    requires
        state.attempts < attempt_limit(*policy),
    ensures
        r == step(*state, probe, *policy),
        r.1 is Send ==> r.0.attempts < attempt_limit(*policy) && 0 <= budget(r.0, *policy)
            < budget(*state, *policy),
{
    match probe {
        Probe::Status(code) => {
            if state.method == Method::Head && (code == 405 || code == 501) {
                (
                    CheckState { method: Method::Get, attempts: state.attempts },
                    CheckAction::Send { method: Method::Get, delay_ms: 0 },
                )
            } else {
                (*state, CheckAction::Finish(classify(code)))
            }
        },
        Probe::Transport(reason) => {
            let limit: u32 = if policy.max_attempts == 0 {
                1
            } else {
                policy.max_attempts
            };
            if state.attempts < limit - 1 {
                let n = state.attempts + 1;
                (
                    CheckState { method: state.method, attempts: n },
                    CheckAction::Send {
                        method: state.method,
                        delay_ms: retry_delay(policy.base_delay_ms, n),
                    },
                )
            } else {
                (*state, CheckAction::Finish(CheckStatus::TransportFailure(reason)))
            }
        },
    }
}

} // verus!
