//! Delivery decisions: response classification, a retry state machine with
//! capped exponential backoff, and a concurrency / rate limiter.
use vstd::prelude::*;
use crate::finalize::BatchStatus;

verus! {

/// Classification of one transport attempt.
#[derive(Debug, Clone, Copy, PartialEq, Eq, Structural)]
pub enum DeliveryOutcome {
    Delivered,
    Rejected,
    Retriable,
}

pub open spec fn classify_spec(status: u16) -> DeliveryOutcome {
    if 200 <= status <= 299 {
        DeliveryOutcome::Delivered
    } else if status == 401 || status == 408 || status == 429 {
        DeliveryOutcome::Retriable
    } else if status == 501 {
        DeliveryOutcome::Rejected
    } else if 500 <= status <= 599 {
        DeliveryOutcome::Retriable
    } else {
        DeliveryOutcome::Rejected
    }
}

/// Maps an HTTP status to an outcome: success is delivered; an expired
/// token, a timeout, throttling and server errors other than "not
/// implemented" are retried; everything else is rejected.
pub fn classify_status(status: u16) -> (r: DeliveryOutcome)
    ensures
        r == classify_spec(status),
{
    if 200 <= status && status <= 299 {
        DeliveryOutcome::Delivered
    } else if status == 401 || status == 408 || status == 429 {
        DeliveryOutcome::Retriable
    } else if status == 501 {
        DeliveryOutcome::Rejected
    } else if 500 <= status && status <= 599 {
        DeliveryOutcome::Retriable
    } else {
        DeliveryOutcome::Rejected
    }
}

/// Attempt ceiling and backoff bounds, in milliseconds.
#[derive(Debug, Clone, Copy, PartialEq, Eq, Structural)]
pub struct RetryPolicy {
    pub max_attempts: u32,
    pub initial_backoff_ms: u64,
    pub max_backoff_ms: u64,
}

/// `initial * 2^n`, capped at `max`.
pub open spec fn backoff_spec(initial: u64, max: u64, n: nat) -> u64
    decreases n,
{
    if n == 0 {
        if initial <= max { initial } else { max }
    } else {
        let b = backoff_spec(initial, max, (n - 1) as nat);
        if b as int + b as int <= max as int { (b + b) as u64 } else { max }
    }
}

/// The delay before retry number `n + 1`: `initial * 2^n`, capped at `max`.
pub fn backoff(initial: u64, max: u64, n: u32) -> (r: u64)
    ensures
        r == backoff_spec(initial, max, n as nat),
        r <= max,
{
    let mut b: u64 = if initial <= max { initial } else { max };
    let mut i: u32 = 0;
    while i < n
        invariant
            i <= n,
            b == backoff_spec(initial, max, i as nat),
            b <= max,
        decreases n - i,
    {
        b = if b <= max - b { b + b } else { max };
        i = i + 1;
    }
    b
}

/// Where one request stands in its delivery.
#[derive(Debug, Clone, Copy, PartialEq, Eq, Structural)]
pub enum AttemptState {
    Pending,
    InFlight { attempt: u32 },
    AwaitingRetryDelay { attempt: u32 },
    Terminal { status: BatchStatus },
}

/// What happened to the request.
#[derive(Debug, Clone, Copy, PartialEq, Eq, Structural)]
pub enum RetryEvent {
    Start,
    Response { status: u16 },
    TransportError,
    DelayElapsed,
}

/// What the caller does next.
#[derive(Debug, Clone, Copy, PartialEq, Eq, Structural)]
pub enum RetryAction {
    Send,
    Sleep { ms: u64 },
    Finish { status: BatchStatus },
    Ignore,
}

/// After attempt `attempt` came back with outcome `o`.
pub open spec fn after_attempt(p: RetryPolicy, attempt: u32, o: DeliveryOutcome, jitter_ms: u64) -> (AttemptState, RetryAction) {
    match o {
        DeliveryOutcome::Delivered => (
            AttemptState::Terminal { status: BatchStatus::Delivered },
            RetryAction::Finish { status: BatchStatus::Delivered },
        ),
        DeliveryOutcome::Rejected => (
            AttemptState::Terminal { status: BatchStatus::Rejected },
            RetryAction::Finish { status: BatchStatus::Rejected },
        ),
        DeliveryOutcome::Retriable => if attempt >= p.max_attempts {
            (AttemptState::Terminal { status: BatchStatus::Rejected }, RetryAction::Finish { status: BatchStatus::Rejected })
        } else {
            let d = backoff_spec(p.initial_backoff_ms, p.max_backoff_ms, (attempt - 1) as nat);
            let j = if jitter_ms <= d { jitter_ms } else { d };
            let ms = if d as int + j as int <= u64::MAX as int { (d + j) as u64 } else { u64::MAX };
            (AttemptState::AwaitingRetryDelay { attempt }, RetryAction::Sleep { ms })
        },
    }
}

/// One transition of the retry machine. Attempts are numbered from 1.
pub open spec fn retry_step_spec(p: RetryPolicy, s: AttemptState, e: RetryEvent, jitter_ms: u64) -> (AttemptState, RetryAction) {
    match (s, e) {
        (AttemptState::Pending, RetryEvent::Start) => (AttemptState::InFlight { attempt: 1 }, RetryAction::Send),
        (AttemptState::InFlight { attempt }, RetryEvent::Response { status }) => after_attempt(p, attempt, classify_spec(status), jitter_ms),
        (AttemptState::InFlight { attempt }, RetryEvent::TransportError) => after_attempt(p, attempt, DeliveryOutcome::Retriable, jitter_ms),
        (AttemptState::AwaitingRetryDelay { attempt }, RetryEvent::DelayElapsed) => if attempt < u32::MAX {
            (AttemptState::InFlight { attempt: (attempt + 1) as u32 }, RetryAction::Send)
        } else {
            (AttemptState::Terminal { status: BatchStatus::Rejected }, RetryAction::Finish { status: BatchStatus::Rejected })
        },
        _ => (s, RetryAction::Ignore),
    }
}

pub open spec fn state_ok(s: AttemptState) -> bool {
    match s {
        AttemptState::InFlight { attempt } => attempt >= 1,
        AttemptState::AwaitingRetryDelay { attempt } => attempt >= 1,
        _ => true,
    }
}

fn after_attempt_exec(p: RetryPolicy, attempt: u32, o: DeliveryOutcome, jitter_ms: u64) -> (r: (AttemptState, RetryAction))
    requires
        attempt >= 1,
    ensures
        r == after_attempt(p, attempt, o, jitter_ms),
{
    match o {
        DeliveryOutcome::Delivered => (
            AttemptState::Terminal { status: BatchStatus::Delivered },
            RetryAction::Finish { status: BatchStatus::Delivered },
        ),
        DeliveryOutcome::Rejected => (
            AttemptState::Terminal { status: BatchStatus::Rejected },
            RetryAction::Finish { status: BatchStatus::Rejected },
        ),
        DeliveryOutcome::Retriable => if attempt >= p.max_attempts {
            (AttemptState::Terminal { status: BatchStatus::Rejected }, RetryAction::Finish { status: BatchStatus::Rejected })
        } else {
            let d = backoff(p.initial_backoff_ms, p.max_backoff_ms, attempt - 1);
            let j = if jitter_ms <= d { jitter_ms } else { d };
            let ms = if d <= u64::MAX - j { d + j } else { u64::MAX };
            (AttemptState::AwaitingRetryDelay { attempt }, RetryAction::Sleep { ms })
        },
    }
}

/// Decides the next state and action of one request's delivery. A rejection
/// ends it at once; a retriable outcome sleeps a capped exponential backoff
/// plus the jitter given (at most the backoff itself, the sum saturating) and tries again, until
/// the attempt ceiling turns it into a rejection.
pub fn retry_step(p: RetryPolicy, s: AttemptState, e: RetryEvent, jitter_ms: u64) -> (r: (AttemptState, RetryAction))
    requires
        state_ok(s),
    ensures
        r == retry_step_spec(p, s, e, jitter_ms),
        state_ok(r.0),
{
    match (s, e) {
        (AttemptState::Pending, RetryEvent::Start) => (AttemptState::InFlight { attempt: 1 }, RetryAction::Send),
        (AttemptState::InFlight { attempt }, RetryEvent::Response { status }) => after_attempt_exec(p, attempt, classify_status(status), jitter_ms),
        (AttemptState::InFlight { attempt }, RetryEvent::TransportError) => after_attempt_exec(p, attempt, DeliveryOutcome::Retriable, jitter_ms),
        (AttemptState::AwaitingRetryDelay { attempt }, RetryEvent::DelayElapsed) => if attempt < u32::MAX {
            (AttemptState::InFlight { attempt: attempt + 1 }, RetryAction::Send)
        } else {
            (AttemptState::Terminal { status: BatchStatus::Rejected }, RetryAction::Finish { status: BatchStatus::Rejected })
        },
        _ => (s, RetryAction::Ignore),
    }
}

/// A non-retriable rejection ends the delivery with `Rejected` and no
/// further attempt, whatever the attempt number.
pub proof fn lemma_rejection_not_retried(p: RetryPolicy, attempt: u32, status: u16, jitter_ms: u64)
    requires
        classify_spec(status) == DeliveryOutcome::Rejected,
    ensures
        retry_step_spec(p, AttemptState::InFlight { attempt }, RetryEvent::Response { status }, jitter_ms)
            == (AttemptState::Terminal { status: BatchStatus::Rejected }, RetryAction::Finish { status: BatchStatus::Rejected }),
{
}

/// Once the attempt ceiling is reached, a retriable outcome becomes a rejection.
pub proof fn lemma_retry_ceiling(p: RetryPolicy, attempt: u32, jitter_ms: u64)
    requires
        attempt >= p.max_attempts,
    ensures
        retry_step_spec(p, AttemptState::InFlight { attempt }, RetryEvent::TransportError, jitter_ms).1
            == (RetryAction::Finish { status: BatchStatus::Rejected }),
{
}

/// A terminal state stays terminal.
pub proof fn lemma_terminal_is_final(p: RetryPolicy, status: BatchStatus, e: RetryEvent, jitter_ms: u64)
    ensures
        retry_step_spec(p, AttemptState::Terminal { status }, e, jitter_ms) == (AttemptState::Terminal { status }, RetryAction::Ignore),
{
}

/// Bounds on requests in flight and on requests started per time window.
#[derive(Debug, Clone, Copy, PartialEq, Eq, Structural)]
pub struct Limiter {
    pub max_in_flight: u32,
    pub in_flight: u32,
    pub rate_limit_num: u64,
    pub window_ms: u64,
    pub window_start: u64,
    pub window_count: u64,
}

impl Limiter {
    pub open spec fn wf(self) -> bool {
        self.in_flight <= self.max_in_flight && self.window_count <= self.rate_limit_num
    }

    pub open spec fn window_over(self, now: u64) -> bool {
        now >= self.window_start && now - self.window_start >= self.window_ms
    }

    /// A limiter with nothing in flight and a window opening at `now`.
    pub fn new(max_in_flight: u32, rate_limit_num: u64, window_ms: u64, now: u64) -> (r: Limiter)
        ensures
            r.wf(),
            r.in_flight == 0,
            r.window_count == 0,
            r.window_start == now,
            r.max_in_flight == max_in_flight,
            r.rate_limit_num == rate_limit_num,
            r.window_ms == window_ms,
    {
        Limiter { max_in_flight, in_flight: 0, rate_limit_num, window_ms, window_start: now, window_count: 0 }
    }

    /// Takes a permit at `now` if both bounds allow one; a window that has
    /// run its length is restarted first.
    pub fn try_acquire(&mut self, now: u64) -> (r: bool)
        requires
            old(self).wf(),
        ensures
            final(self).wf(),
            final(self).max_in_flight == old(self).max_in_flight,
            final(self).rate_limit_num == old(self).rate_limit_num,
            final(self).window_ms == old(self).window_ms,
            ({
                let count = if old(self).window_over(now) { 0 } else { old(self).window_count };
                let start = if old(self).window_over(now) { now } else { old(self).window_start };
                &&& r == (old(self).in_flight < old(self).max_in_flight && count < old(self).rate_limit_num)
                &&& final(self).window_start == start
                &&& final(self).in_flight == if r { old(self).in_flight + 1 } else { old(self).in_flight as int }
                &&& final(self).window_count == if r { count + 1 } else { count as int }
            }),
    {
        if now >= self.window_start && now - self.window_start >= self.window_ms {
            self.window_start = now;
            self.window_count = 0;
        }
        if self.in_flight < self.max_in_flight && self.window_count < self.rate_limit_num {
            self.in_flight = self.in_flight + 1;
            self.window_count = self.window_count + 1;
            true
        } else {
            false
        }
    }

    /// Returns the permit of a request that finished.
    pub fn release(&mut self)
        requires
            old(self).wf(),
            old(self).in_flight > 0,
        ensures
            final(self).wf(),
            *final(self) == (Limiter { in_flight: (old(self).in_flight - 1) as u32, ..*old(self) }),
    {
        self.in_flight = self.in_flight - 1;
    }
}

} // verus!
