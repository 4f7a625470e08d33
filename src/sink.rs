//! The sink driver's decisions: routing events into the batcher through the
//! partition template, and the shutdown sequence.
use vstd::prelude::*;
use crate::batcher::{Batch, Batcher, batch_ok, batched_events, pending_of, push_effect};
use crate::delivery::{AttemptState, DeliveryOutcome, RetryAction, RetryEvent, RetryPolicy, classify_spec, retry_step_spec};
use crate::event::{Event, Finalizer, all_finalizers};
use crate::request::{finalizers_by_outcome, lemma_finalizers_conserved};
use crate::finalize::{BatchStatus, ProducerView, lemma_each_resolved_once, outstanding_in, resolve_all, resolve_step, views_wf};
use crate::template::{Template, render_parts};

verus! {

/// What routing one event yields: batches closed on its account and the
/// finalizers to resolve as rejected at once.
#[derive(Debug)]
pub struct Admission {
    pub flushed: Vec<Batch>,
    pub rejected: Vec<Finalizer>,
}

/// Routes `event` to the batch of its partition key. An event whose key
/// cannot be rendered, or which is over the byte bound by itself, is not
/// batched: its finalizers come back to be rejected.
pub fn route_event(batcher: &mut Batcher, template: &Template, event: Event, now: u64) -> (r: Admission)
    requires
        old(batcher).wf(),
    ensures
        final(batcher).wf(),
        final(batcher).config == old(batcher).config,
        match render_parts(template.parts@, event.fields@) {
            None => {
                &&& r.flushed@.len() == 0
                &&& r.rejected@ == event.finalizers@
                &&& final(batcher).open@ == old(batcher).open@
            },
            Some(k) => {
                &&& forall|i: int| 0 <= i < r.flushed@.len() ==> batch_ok(#[trigger] r.flushed@[i], old(batcher).config)
                    && r.flushed@[i].key@ == k
                &&& forall|j: Seq<char>| j != k ==> pending_of(final(batcher).open@, j) == pending_of(old(batcher).open@, j)
                &&& event.byte_size > old(batcher).config.max_bytes ==> {
                    &&& r.rejected@ == event.finalizers@
                    &&& r.flushed@.len() == 0
                    &&& final(batcher).open@ == old(batcher).open@
                }
                &&& event.byte_size <= old(batcher).config.max_bytes ==> {
                    &&& r.rejected@.len() == 0
                    &&& batched_events(r.flushed@) + pending_of(final(batcher).open@, k)
                        == pending_of(old(batcher).open@, k).push(event)
                    &&& push_effect(old(batcher).config, pending_of(old(batcher).open@, k), event, r.flushed@,
                        pending_of(final(batcher).open@, k))
                }
            },
        },
{
    match template.render(&event) {
        None => {
            let mut e = event;
            let rejected = e.take_finalizers();
            Admission { flushed: Vec::new(), rejected }
        },
        Some(key) => {
            let out = batcher.push(key, event, now);
            match out.rejected {
                Some(e) => {
                    let mut e = e;
                    let rejected = e.take_finalizers();
                    Admission { flushed: out.flushed, rejected }
                },
                None => Admission { flushed: out.flushed, rejected: Vec::new() },
            }
        },
    }
}

/// Where the driver stands: taking events, draining after a shutdown
/// signal, or finished.
#[derive(Debug, Clone, Copy, PartialEq, Eq, Structural)]
pub enum DriverPhase {
    Running,
    Draining,
    Done,
}

/// The driver's phase, the number of requests in flight, and whether the
/// batches flushed at shutdown have all been submitted.
#[derive(Debug, Clone, Copy, PartialEq, Eq, Structural)]
pub struct DriverState {
    pub phase: DriverPhase,
    pub in_flight: u64,
    pub flushed: bool,
}

/// What the driver learns.
#[derive(Debug, Clone, Copy, PartialEq, Eq, Structural)]
pub enum DriverEvent {
    Shutdown,
    FlushSubmitted,
    RequestSubmitted,
    RequestFinished,
}

/// What the driver does next.
#[derive(Debug, Clone, Copy, PartialEq, Eq, Structural)]
pub enum DriverAction {
    Continue,
    StopIntakeAndFlush,
    Terminate,
    Refuse,
}

/// Whether new events are pulled in this state.
pub open spec fn accepts_events(s: DriverState) -> bool {
    s.phase == DriverPhase::Running
}

/// The state in which the driver finishes: draining, with the shutdown
/// flush submitted and nothing in flight.
pub open spec fn finished_state() -> DriverState {
    DriverState { phase: DriverPhase::Done, in_flight: 0, flushed: true }
}

pub open spec fn driver_step_spec(s: DriverState, e: DriverEvent) -> (DriverState, DriverAction) {
    match (s.phase, e) {
        (DriverPhase::Done, _) => (s, DriverAction::Refuse),
        (DriverPhase::Running, DriverEvent::Shutdown) => (
            DriverState { phase: DriverPhase::Draining, in_flight: s.in_flight, flushed: false },
            DriverAction::StopIntakeAndFlush,
        ),
        (DriverPhase::Draining, DriverEvent::Shutdown) => (s, DriverAction::Continue),
        (DriverPhase::Running, DriverEvent::FlushSubmitted) => (s, DriverAction::Refuse),
        (DriverPhase::Draining, DriverEvent::FlushSubmitted) => if s.flushed {
            (s, DriverAction::Refuse)
        } else if s.in_flight == 0 {
            (finished_state(), DriverAction::Terminate)
        } else {
            (DriverState { flushed: true, ..s }, DriverAction::Continue)
        },
        (_, DriverEvent::RequestSubmitted) => if s.in_flight < u64::MAX {
            (DriverState { in_flight: (s.in_flight + 1) as u64, ..s }, DriverAction::Continue)
        } else {
            (s, DriverAction::Refuse)
        },
        (_, DriverEvent::RequestFinished) => if s.in_flight == 0 {
            (s, DriverAction::Refuse)
        } else if s.phase == DriverPhase::Draining && s.flushed && s.in_flight == 1 {
            (finished_state(), DriverAction::Terminate)
        } else {
            (DriverState { in_flight: (s.in_flight - 1) as u64, ..s }, DriverAction::Continue)
        },
    }
}

/// One decision of the driver. A shutdown stops intake at once and has the
/// open batches flushed; the driver finishes only once the requests of that
/// flush have been submitted and every request in flight has resolved.
/// Events that make no sense in the state are refused.
pub fn driver_step(s: DriverState, e: DriverEvent) -> (r: (DriverState, DriverAction))
    ensures
        r == driver_step_spec(s, e),
{
    match (s.phase, e) {
        (DriverPhase::Done, _) => (s, DriverAction::Refuse),
        (DriverPhase::Running, DriverEvent::Shutdown) => (
            DriverState { phase: DriverPhase::Draining, in_flight: s.in_flight, flushed: false },
            DriverAction::StopIntakeAndFlush,
        ),
        (DriverPhase::Draining, DriverEvent::Shutdown) => (s, DriverAction::Continue),
        (DriverPhase::Running, DriverEvent::FlushSubmitted) => (s, DriverAction::Refuse),
        (DriverPhase::Draining, DriverEvent::FlushSubmitted) => if s.flushed {
            (s, DriverAction::Refuse)
        } else if s.in_flight == 0 {
            (DriverState { phase: DriverPhase::Done, in_flight: 0, flushed: true }, DriverAction::Terminate)
        } else {
            (DriverState { flushed: true, ..s }, DriverAction::Continue)
        },
        (_, DriverEvent::RequestSubmitted) => if s.in_flight < u64::MAX {
            (DriverState { in_flight: s.in_flight + 1, ..s }, DriverAction::Continue)
        } else {
            (s, DriverAction::Refuse)
        },
        (_, DriverEvent::RequestFinished) => if s.in_flight == 0 {
            (s, DriverAction::Refuse)
        } else if s.phase == DriverPhase::Draining && s.flushed && s.in_flight == 1 {
            (DriverState { phase: DriverPhase::Done, in_flight: 0, flushed: true }, DriverAction::Terminate)
        } else {
            (DriverState { in_flight: s.in_flight - 1, ..s }, DriverAction::Continue)
        },
    }
}

/// After a shutdown the driver never takes events again. It terminates only
/// from draining, once the shutdown flush has been submitted and the last
/// request in flight has resolved; a shutdown alone never ends it, and
/// requests of the flush are still taken while draining.
pub proof fn lemma_shutdown_drains_before_done(s: DriverState, e: DriverEvent)
    ensures
        !accepts_events(s) ==> !accepts_events(driver_step_spec(s, e).0),
        e == DriverEvent::Shutdown ==> !accepts_events(driver_step_spec(s, e).0),
        s.phase != DriverPhase::Done && driver_step_spec(s, e).0.phase == DriverPhase::Done ==> {
            &&& s.phase == DriverPhase::Draining
            &&& e != DriverEvent::Shutdown
            &&& driver_step_spec(s, e).0.flushed
            &&& driver_step_spec(s, e).0.in_flight == 0
            &&& (e == DriverEvent::FlushSubmitted ==> s.in_flight == 0)
            &&& (e == DriverEvent::RequestFinished ==> s.flushed && s.in_flight == 1)
        },
        driver_step_spec(s, e).1 == DriverAction::Terminate <==> (s.phase != DriverPhase::Done
            && driver_step_spec(s, e).0.phase == DriverPhase::Done),
        s.phase == DriverPhase::Draining && !s.flushed && s.in_flight < u64::MAX
            ==> driver_step_spec(s, DriverEvent::RequestSubmitted).1 == DriverAction::Continue,
{
}

/// A request answered with a non-retriable rejection is finished as
/// `Rejected` with no further attempt; resolving its finalizers with that
/// outcome gives every one of them `Rejected`, and every producer batch
/// completed along the way reports `Rejected`.
pub proof fn lemma_rejection_reaches_producer(
    p: RetryPolicy,
    attempt: u32,
    status: u16,
    jitter_ms: u64,
    s: Seq<ProducerView>,
    fs: Seq<Finalizer>,
)
    requires
        classify_spec(status) == DeliveryOutcome::Rejected,
    ensures
        retry_step_spec(p, AttemptState::InFlight { attempt }, RetryEvent::Response { status }, jitter_ms)
            == (AttemptState::Terminal { status: BatchStatus::Rejected }, RetryAction::Finish { status: BatchStatus::Rejected }),
        forall|k: int| 0 <= k < fs.len() ==> match #[trigger] resolve_step(
            resolve_all(s, fs.subrange(0, k), BatchStatus::Rejected),
            fs[k],
            BatchStatus::Rejected,
        ).1 {
            Ok(Some(v)) => v == BatchStatus::Rejected,
            _ => true,
        },
{
}

/// Every finalizer of a batch receives exactly one terminal resolution:
/// those carried by the request resolve with the request's outcome, those of
/// events the encoder failed on resolve as `Rejected`. Given that the batch's
/// finalizers are distinct and all owed an outcome, every one of these
/// resolutions is accepted, and afterwards none of them is owed anything.
pub proof fn lemma_batch_resolved_once(s: Seq<ProducerView>, events: Seq<Event>, encs: Seq<Option<Vec<u8>>>, outcome: BatchStatus)
    requires
        encs.len() == events.len(),
        views_wf(s),
        all_finalizers(events).no_duplicates(),
        forall|f: Finalizer| all_finalizers(events).contains(f) ==> outstanding_in(s, f),
    ensures
        ({
            let kept = finalizers_by_outcome(events, encs, true);
            let dropped = finalizers_by_outcome(events, encs, false);
            let t1 = resolve_all(s, kept, outcome);
            let t2 = resolve_all(t1, dropped, BatchStatus::Rejected);
            &&& forall|k: int| 0 <= k < kept.len() ==> (#[trigger] resolve_step(resolve_all(s, kept.subrange(0, k), outcome), kept[k], outcome).1) is Ok
            &&& forall|k: int| 0 <= k < dropped.len() ==> (#[trigger] resolve_step(
                resolve_all(t1, dropped.subrange(0, k), BatchStatus::Rejected),
                dropped[k],
                BatchStatus::Rejected,
            ).1) is Ok
            &&& forall|f: Finalizer| all_finalizers(events).contains(f) ==> !outstanding_in(t2, f)
        }),
{
    broadcast use vstd::seq_lib::group_to_multiset_ensures;
    broadcast use vstd::seq_lib::lemma_multiset_commutative;
    let all = all_finalizers(events);
    let kept = finalizers_by_outcome(events, encs, true);
    let dropped = finalizers_by_outcome(events, encs, false);
    let c = kept + dropped;
    lemma_finalizers_conserved(events, encs);
    assert(c.to_multiset() =~= all.to_multiset());
    all.lemma_multiset_has_no_duplicates();
    c.lemma_multiset_has_no_duplicates_conv();
    assert forall|f: Finalizer| c.contains(f) implies all.contains(f) && outstanding_in(s, f) by {
        assert(c.to_multiset().count(f) > 0);
    }
    assert forall|f: Finalizer| all.contains(f) implies c.contains(f) by {
        assert(all.to_multiset().count(f) > 0);
    }
    assert forall|k: int| 0 <= k < kept.len() implies outstanding_in(s, #[trigger] kept[k]) by {
        assert(c[k] == kept[k]);
        assert(c.contains(c[k]));
    }
    assert forall|a: int, b: int| 0 <= a < kept.len() && 0 <= b < kept.len() && a != b implies kept[a] != kept[b] by {
        assert(c[a] == kept[a]);
        assert(c[b] == kept[b]);
    }
    lemma_each_resolved_once(s, kept, outcome);
    let t1 = resolve_all(s, kept, outcome);
    assert forall|k: int| 0 <= k < dropped.len() implies !kept.contains(#[trigger] dropped[k]) by {
        assert(c[kept.len() + k] == dropped[k]);
        if kept.contains(dropped[k]) {
            let m = choose|m: int| 0 <= m < kept.len() && kept[m] == dropped[k];
            assert(c[m] == kept[m]);
        }
    }
    assert forall|k: int| 0 <= k < dropped.len() implies outstanding_in(t1, #[trigger] dropped[k]) by {
        assert(c[kept.len() + k] == dropped[k]);
        assert(c.contains(c[kept.len() + k]));
        assert(!kept.contains(dropped[k]));
    }
    assert forall|a: int, b: int| 0 <= a < dropped.len() && 0 <= b < dropped.len() && a != b implies dropped[a] != dropped[b] by {
        assert(c[kept.len() + a] == dropped[a]);
        assert(c[kept.len() + b] == dropped[b]);
    }
    lemma_each_resolved_once(t1, dropped, BatchStatus::Rejected);
    let t2 = resolve_all(t1, dropped, BatchStatus::Rejected);
    assert forall|f: Finalizer| all.contains(f) implies !outstanding_in(t2, f) by {
        assert(c.contains(f));
        let m = choose|m: int| 0 <= m < c.len() && c[m] == f;
        if m < kept.len() {
            assert(kept[m] == f);
            assert(!outstanding_in(t1, kept[m]));
            if dropped.contains(f) {
                let d = choose|d: int| 0 <= d < dropped.len() && dropped[d] == f;
                assert(c[kept.len() + d] == f);
            }
        } else {
            assert(dropped[m - kept.len()] == f);
        }
    }
}

} // verus!
