use delivery_core::sink::{driver_step, DriverAction, DriverEvent, DriverPhase, DriverState};
use delivery_core::delivery::{
    backoff, classify_status, retry_step, AttemptState, DeliveryOutcome, Limiter, RetryAction, RetryEvent,
    RetryPolicy,
};
use delivery_core::event::Finalizer;
use delivery_core::finalize::{BatchStatus, FinalizationEngine};

fn policy() -> RetryPolicy {
    RetryPolicy { max_attempts: 3, initial_backoff_ms: 100, max_backoff_ms: 1000 }
}

#[test]
fn rejection_is_final_without_retry() {
    let p = policy();
    let (s, a) = retry_step(p, AttemptState::Pending, RetryEvent::Start, 0);
    assert_eq!(a, RetryAction::Send);
    let (s, a) = retry_step(p, s, RetryEvent::Response { status: 400 }, 0);
    assert_eq!(s, AttemptState::Terminal { status: BatchStatus::Rejected });
    assert_eq!(a, RetryAction::Finish { status: BatchStatus::Rejected });
    let (_, a) = retry_step(p, s, RetryEvent::DelayElapsed, 0);
    assert_eq!(a, RetryAction::Ignore);

    let mut engine = FinalizationEngine::new();
    assert!(engine.register(9, vec![1, 2, 3]));
    let fs: Vec<Finalizer> = (1..=3).map(|id| Finalizer { batch: 9, id }).collect();
    let res = engine.resolve(&fs, BatchStatus::Rejected);
    assert_eq!(res.len(), 3);
    assert!(res.iter().all(|r| r.status == BatchStatus::Rejected));
    assert_eq!(res[2].result, Ok(Some(BatchStatus::Rejected)));
}

#[test]
fn retries_until_ceiling() {
    let p = policy();
    let (s, _) = retry_step(p, AttemptState::Pending, RetryEvent::Start, 0);
    let (s, a) = retry_step(p, s, RetryEvent::Response { status: 503 }, 7);
    assert_eq!(a, RetryAction::Sleep { ms: 107 });
    let (s, a) = retry_step(p, s, RetryEvent::DelayElapsed, 0);
    assert_eq!(s, AttemptState::InFlight { attempt: 2 });
    assert_eq!(a, RetryAction::Send);
    let (s, a) = retry_step(p, s, RetryEvent::TransportError, 500);
    assert_eq!(a, RetryAction::Sleep { ms: 400 });
    let (s, _) = retry_step(p, s, RetryEvent::DelayElapsed, 0);
    let (s, a) = retry_step(p, s, RetryEvent::Response { status: 429 }, 0);
    assert_eq!(s, AttemptState::Terminal { status: BatchStatus::Rejected });
    assert_eq!(a, RetryAction::Finish { status: BatchStatus::Rejected });
}

#[test]
fn success_delivers() {
    let p = policy();
    let (s, a) = retry_step(p, AttemptState::InFlight { attempt: 1 }, RetryEvent::Response { status: 200 }, 0);
    assert_eq!(s, AttemptState::Terminal { status: BatchStatus::Delivered });
    assert_eq!(a, RetryAction::Finish { status: BatchStatus::Delivered });
}

#[test]
fn status_classification() {
    assert_eq!(classify_status(204), DeliveryOutcome::Delivered);
    assert_eq!(classify_status(401), DeliveryOutcome::Retriable);
    assert_eq!(classify_status(408), DeliveryOutcome::Retriable);
    assert_eq!(classify_status(429), DeliveryOutcome::Retriable);
    assert_eq!(classify_status(500), DeliveryOutcome::Retriable);
    assert_eq!(classify_status(501), DeliveryOutcome::Rejected);
    assert_eq!(classify_status(404), DeliveryOutcome::Rejected);
}

#[test]
fn backoff_doubles_and_caps() {
    assert_eq!(backoff(100, 1000, 0), 100);
    assert_eq!(backoff(100, 1000, 1), 200);
    assert_eq!(backoff(100, 1000, 3), 800);
    assert_eq!(backoff(100, 1000, 4), 1000);
    assert_eq!(backoff(5000, 1000, 0), 1000);
    assert_eq!(backoff(u64::MAX, u64::MAX, 2), u64::MAX);
}

#[test]
fn limiter_bounds() {
    let mut l = Limiter::new(2, 3, 1000, 0);
    assert!(l.try_acquire(0));
    assert!(l.try_acquire(1));
    assert!(!l.try_acquire(2));
    l.release();
    assert!(l.try_acquire(3));
    l.release();
    assert!(!l.try_acquire(4));
    assert!(l.try_acquire(1000));
    assert_eq!(l.window_start, 1000);
    assert_eq!(l.window_count, 1);
}

#[test]
fn driver_drains_before_terminating() {
    let s = DriverState { phase: DriverPhase::Running, in_flight: 0, flushed: false };
    let (s, a) = driver_step(s, DriverEvent::RequestSubmitted);
    assert_eq!(a, DriverAction::Continue);
    let (s, _) = driver_step(s, DriverEvent::RequestSubmitted);
    let (s, a) = driver_step(s, DriverEvent::Shutdown);
    assert_eq!(a, DriverAction::StopIntakeAndFlush);
    assert_eq!(s, DriverState { phase: DriverPhase::Draining, in_flight: 2, flushed: false });
    let (s, _) = driver_step(s, DriverEvent::RequestFinished);
    let (s, a) = driver_step(s, DriverEvent::RequestFinished);
    assert_eq!(a, DriverAction::Continue);
    assert_eq!(s.phase, DriverPhase::Draining);
    let (s, a) = driver_step(s, DriverEvent::RequestSubmitted);
    assert_eq!(a, DriverAction::Continue);
    let (s, a) = driver_step(s, DriverEvent::FlushSubmitted);
    assert_eq!(a, DriverAction::Continue);
    let (s, a) = driver_step(s, DriverEvent::RequestFinished);
    assert_eq!(a, DriverAction::Terminate);
    assert_eq!(s, DriverState { phase: DriverPhase::Done, in_flight: 0, flushed: true });
    let (_, a) = driver_step(s, DriverEvent::RequestSubmitted);
    assert_eq!(a, DriverAction::Refuse);
}

#[test]
fn idle_shutdown_still_flushes() {
    let idle = DriverState { phase: DriverPhase::Running, in_flight: 0, flushed: false };
    let (s, a) = driver_step(idle, DriverEvent::Shutdown);
    assert_eq!(a, DriverAction::StopIntakeAndFlush);
    assert_eq!(s.phase, DriverPhase::Draining);
    let (s, a) = driver_step(s, DriverEvent::RequestSubmitted);
    assert_eq!(a, DriverAction::Continue);
    let (s, _) = driver_step(s, DriverEvent::FlushSubmitted);
    assert_eq!(s.phase, DriverPhase::Draining);
    let (s, a) = driver_step(s, DriverEvent::RequestFinished);
    assert_eq!(a, DriverAction::Terminate);
    assert_eq!(s.phase, DriverPhase::Done);
    let empty = DriverState { phase: DriverPhase::Draining, in_flight: 0, flushed: false };
    assert_eq!(driver_step(empty, DriverEvent::FlushSubmitted).1, DriverAction::Terminate);
}
