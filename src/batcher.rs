//! Per-key batching with a byte bound, a count bound and a linger timeout.
use vstd::prelude::*;
use crate::event::{Event, total_size};

verus! {

/// Bounds of one batch: summed admission size, number of events, and how
/// long (in milliseconds) a batch may stay open after its first event.
#[derive(Debug, Clone, Copy, PartialEq, Eq, Structural)]
pub struct BatchConfig {
    pub max_bytes: usize,
    pub max_events: usize,
    pub timeout_ms: u64,
}

impl BatchConfig {
    pub open spec fn valid(self) -> bool {
        self.max_events > 0
    }
}

/// A group of events that share one partition key.
#[derive(Debug)]
pub struct Batch {
    pub key: String,
    pub events: Vec<Event>,
    pub size: usize,
    pub opened_at: u64,
}

/// A batch that respects the bounds of `c`.
pub open spec fn batch_ok(b: Batch, c: BatchConfig) -> bool {
    &&& 0 < b.events@.len() <= c.max_events
    &&& b.size == total_size(b.events@)
    &&& b.size <= c.max_bytes
}

pub open spec fn keys_unique(s: Seq<Batch>) -> bool {
    forall|i: int, j: int| 0 <= i < s.len() && 0 <= j < s.len() && i != j ==> s[i].key@ != s[j].key@
}

pub open spec fn has_key(s: Seq<Batch>, k: Seq<char>) -> bool {
    exists|i: int| 0 <= i < s.len() && (#[trigger] s[i]).key@ == k
}

/// The events held for key `k`.
pub open spec fn pending_of(s: Seq<Batch>, k: Seq<char>) -> Seq<Event> {
    if has_key(s, k) {
        s[choose|i: int| 0 <= i < s.len() && (#[trigger] s[i]).key@ == k].events@
    } else {
        Seq::empty()
    }
}

/// The events of a sequence of batches, batch after batch.
pub open spec fn batched_events(s: Seq<Batch>) -> Seq<Event>
    decreases s.len(),
{
    if s.len() == 0 {
        Seq::empty()
    } else {
        batched_events(s.drop_last()) + s.last().events@
    }
}

pub open spec fn expired(b: Batch, now: u64, timeout: u64) -> bool {
    now >= b.opened_at && now - b.opened_at >= timeout
}

/// The batches of `s` that have (`exp`) or have not lingered `timeout` at `now`.
pub open spec fn by_expiry(s: Seq<Batch>, now: u64, timeout: u64, exp: bool) -> Seq<Batch>
    decreases s.len(),
{
    if s.len() == 0 {
        Seq::empty()
    } else {
        let pre = by_expiry(s.drop_last(), now, timeout, exp);
        if expired(s.last(), now, timeout) == exp {
            pre.push(s.last())
        } else {
            pre
        }
    }
}

/// `b` was opened at `now`, or is an older batch of the same key that kept
/// its opening time.
pub open spec fn opened_before(s: Seq<Batch>, b: Batch, now: u64) -> bool {
    b.opened_at == now || exists|j: int| 0 <= j < s.len() && (#[trigger] s[j]).key@ == b.key@ && s[j].opened_at == b.opened_at
}

/// Exactly which batches one admission of `e` closes and what stays open
/// for its key, given the events `p` held for the key before: the event
/// joins the open batch while both bounds allow; a batch that it would carry
/// past the byte bound is closed first and `e` opens a new one; a batch that
/// reaches the count bound is closed at once.
pub open spec fn push_effect(c: BatchConfig, p: Seq<Event>, e: Event, flushed: Seq<Batch>, after: Seq<Event>) -> bool {
    if p.len() > 0 && total_size(p) + e.byte_size > c.max_bytes {
        &&& flushed.len() >= 1
        &&& flushed[0].events@ == p
        &&& c.max_events > 1 ==> flushed.len() == 1 && after == seq![e]
        &&& c.max_events == 1 ==> flushed.len() == 2 && flushed[1].events@ == seq![e] && after.len() == 0
    } else if p.len() + 1 < c.max_events {
        flushed.len() == 0 && after == p.push(e)
    } else {
        &&& flushed.len() == 1
        &&& flushed[0].events@ == p.push(e)
        &&& after.len() == 0
    }
}

/// What one admission yields: the batches it closed, and the event itself
/// when it alone is over the byte bound.
#[derive(Debug)]
pub struct PushOutcome {
    pub flushed: Vec<Batch>,
    pub rejected: Option<Event>,
}

/// The open batches, at most one per key.
#[derive(Debug)]
pub struct Batcher {
    pub config: BatchConfig,
    pub open: Vec<Batch>,
}

proof fn lemma_batched_one(s: Seq<Batch>)
    requires
        s.len() == 1,
    ensures
        batched_events(s) == s[0].events@,
{
    assert(s.drop_last() =~= Seq::<Batch>::empty());
    assert(batched_events(s.drop_last()) == Seq::<Event>::empty());
    assert(Seq::<Event>::empty() + s[0].events@ =~= s[0].events@);
}

proof fn lemma_total_one(s: Seq<Event>)
    requires
        s.len() == 1,
    ensures
        total_size(s) == s[0].byte_size,
{
    assert(s.drop_last() =~= Seq::<Event>::empty());
    assert(total_size(s.drop_last()) == 0);
    assert(s.last() == s[0]);
}

proof fn lemma_pending_at(s: Seq<Batch>, i: int)
    requires
        keys_unique(s),
        0 <= i < s.len(),
    ensures
        pending_of(s, s[i].key@) == s[i].events@,
{
    assert(has_key(s, s[i].key@));
}

proof fn lemma_update(s: Seq<Batch>, i: int, b: Batch)
    requires
        keys_unique(s),
        0 <= i < s.len(),
        b.key@ == s[i].key@,
    ensures
        keys_unique(s.update(i, b)),
        pending_of(s.update(i, b), b.key@) == b.events@,
        forall|k: Seq<char>| k != b.key@ ==> pending_of(s.update(i, b), k) == pending_of(s, k),
{
    let t = s.update(i, b);
    assert(keys_unique(t));
    lemma_pending_at(t, i);
    assert forall|k: Seq<char>| k != b.key@ implies pending_of(t, k) == pending_of(s, k) by {
        if has_key(s, k) {
            let j = choose|j: int| 0 <= j < s.len() && (#[trigger] s[j]).key@ == k;
            lemma_pending_at(s, j);
            lemma_pending_at(t, j);
        } else if has_key(t, k) {
            let j = choose|j: int| 0 <= j < t.len() && (#[trigger] t[j]).key@ == k;
            assert(s[j].key@ == k);
        }
    }
}

proof fn lemma_remove(s: Seq<Batch>, i: int)
    requires
        keys_unique(s),
        0 <= i < s.len(),
    ensures
        keys_unique(s.remove(i)),
        pending_of(s.remove(i), s[i].key@) == Seq::<Event>::empty(),
        forall|k: Seq<char>| k != s[i].key@ ==> pending_of(s.remove(i), k) == pending_of(s, k),
{
    let t = s.remove(i);
    assert(keys_unique(t)) by {
        assert forall|a: int, c: int| 0 <= a < t.len() && 0 <= c < t.len() && a != c implies t[a].key@ != t[c].key@ by {
            let a2 = if a < i { a } else { a + 1 };
            let c2 = if c < i { c } else { c + 1 };
            assert(t[a] == s[a2]);
            assert(t[c] == s[c2]);
        }
    }
    if has_key(t, s[i].key@) {
        let j = choose|j: int| 0 <= j < t.len() && (#[trigger] t[j]).key@ == s[i].key@;
        let j2 = if j < i { j } else { j + 1 };
        assert(t[j] == s[j2]);
    }
    assert forall|k: Seq<char>| k != s[i].key@ implies pending_of(t, k) == pending_of(s, k) by {
        if has_key(s, k) {
            let j = choose|j: int| 0 <= j < s.len() && (#[trigger] s[j]).key@ == k;
            lemma_pending_at(s, j);
            let j2 = if j < i { j } else { j - 1 };
            assert(t[j2] == s[j]);
            lemma_pending_at(t, j2);
        } else if has_key(t, k) {
            let j = choose|j: int| 0 <= j < t.len() && (#[trigger] t[j]).key@ == k;
            let j2 = if j < i { j } else { j + 1 };
            assert(t[j] == s[j2]);
        }
    }
}

proof fn lemma_push(s: Seq<Batch>, b: Batch)
    requires
        keys_unique(s),
        !has_key(s, b.key@),
    ensures
        keys_unique(s.push(b)),
        pending_of(s.push(b), b.key@) == b.events@,
        forall|k: Seq<char>| k != b.key@ ==> pending_of(s.push(b), k) == pending_of(s, k),
{
    let t = s.push(b);
    assert(keys_unique(t)) by {
        assert forall|a: int, c: int| 0 <= a < t.len() && 0 <= c < t.len() && a != c implies t[a].key@ != t[c].key@ by {
            if a < s.len() {
                assert(t[a] == s[a]);
            }
            if c < s.len() {
                assert(t[c] == s[c]);
            }
        }
    }
    lemma_pending_at(t, s.len() as int);
    assert forall|k: Seq<char>| k != b.key@ implies pending_of(t, k) == pending_of(s, k) by {
        if has_key(s, k) {
            let j = choose|j: int| 0 <= j < s.len() && (#[trigger] s[j]).key@ == k;
            lemma_pending_at(s, j);
            assert(t[j] == s[j]);
            lemma_pending_at(t, j);
        } else if has_key(t, k) {
            let j = choose|j: int| 0 <= j < t.len() && (#[trigger] t[j]).key@ == k;
            assert(t[j] == s[j]);
        }
    }
}

proof fn lemma_by_expiry(s: Seq<Batch>, now: u64, timeout: u64, exp: bool)
    ensures
        forall|x: Batch| #[trigger] by_expiry(s, now, timeout, exp).contains(x) ==> s.contains(x) && expired(x, now, timeout) == exp,
        keys_unique(s) ==> keys_unique(by_expiry(s, now, timeout, exp)),
    decreases s.len(),
{
    if s.len() > 0 {
        let pre = s.drop_last();
        let bp = by_expiry(pre, now, timeout, exp);
        lemma_by_expiry(pre, now, timeout, exp);
        assert forall|x: Batch| pre.contains(x) implies s.contains(x) by {
            let i = choose|i: int| 0 <= i < pre.len() && pre[i] == x;
            assert(s[i] == x);
        }
        assert(s.contains(s.last())) by {
            assert(s[s.len() - 1] == s.last());
        }
        if expired(s.last(), now, timeout) == exp {
            let t = bp.push(s.last());
            assert forall|x: Batch| t.contains(x) implies s.contains(x) && expired(x, now, timeout) == exp by {
                let i = choose|i: int| 0 <= i < t.len() && t[i] == x;
                if i < bp.len() {
                    assert(bp[i] == x);
                    assert(bp.contains(x));
                } else {
                    assert(x == s.last());
                }
            }
            if keys_unique(s) {
                assert(keys_unique(pre));
                assert forall|a: int, c: int| 0 <= a < t.len() && 0 <= c < t.len() && a != c implies t[a].key@ != t[c].key@ by {
                    if a < bp.len() && c < bp.len() {
                        assert(t[a] == bp[a]);
                        assert(t[c] == bp[c]);
                    } else if a < bp.len() {
                        assert(bp.contains(bp[a]));
                        let i = choose|i: int| 0 <= i < pre.len() && pre[i] == bp[a];
                        assert(s[i] == pre[i]);
                        assert(s[s.len() - 1] == s.last());
                    } else if c < bp.len() {
                        assert(bp.contains(bp[c]));
                        let i = choose|i: int| 0 <= i < pre.len() && pre[i] == bp[c];
                        assert(s[i] == pre[i]);
                        assert(s[s.len() - 1] == s.last());
                    }
                }
            }
        } else {
            if keys_unique(s) {
                assert(keys_unique(pre));
            }
        }
    }
}

impl Batcher {
    pub open spec fn wf(self) -> bool {
        &&& self.config.valid()
        &&& keys_unique(self.open@)
        &&& forall|i: int| 0 <= i < self.open@.len() ==> {
            &&& batch_ok(#[trigger] self.open@[i], self.config)
            &&& self.open@[i].events@.len() < self.config.max_events
        }
    }

    /// A batcher with no open batch.
    pub fn new(config: BatchConfig) -> (r: Batcher)
        requires
            config.valid(),
        ensures
            r.wf(),
            r.config == config,
            r.open@.len() == 0,
    {
        Batcher { config, open: Vec::new() }
    }

    fn find(&self, key: &String) -> (r: Option<usize>)
        ensures
            match r {
                Some(i) => i < self.open@.len() && self.open@[i as int].key@ == key@,
                None => !has_key(self.open@, key@),
            },
    {
        let n = self.open.len();
        let mut i: usize = 0;
        while i < n
            invariant
                i <= n,
                n == self.open@.len(),
                forall|j: int| 0 <= j < i ==> (#[trigger] self.open@[j]).key@ != key@,
            decreases n - i,
        {
            if self.open[i].key == *key {
                return Some(i);
            }
            i = i + 1;
        }
        None
    }

    /// Admits `event` under partition `key` at time `now`. An event over the
    /// byte bound by itself comes back as rejected. Otherwise it joins the
    /// open batch of its key; that batch is closed first when the event would
    /// carry it past the byte bound, and closed after when it reaches the
    /// count bound.
    pub fn push(&mut self, key: String, event: Event, now: u64) -> (r: PushOutcome)
        requires
            old(self).wf(),
        ensures
            final(self).wf(),
            final(self).config == old(self).config,
            forall|i: int| 0 <= i < r.flushed@.len() ==> {
                &&& batch_ok(#[trigger] r.flushed@[i], old(self).config)
                &&& r.flushed@[i].key@ == key@
            },
            event.byte_size > old(self).config.max_bytes ==> {
                &&& r.rejected == Some(event)
                &&& r.flushed@.len() == 0
                &&& final(self).open@ == old(self).open@
            },
            event.byte_size <= old(self).config.max_bytes ==> {
                &&& r.rejected is None
                &&& batched_events(r.flushed@) + pending_of(final(self).open@, key@)
                    == pending_of(old(self).open@, key@).push(event)
            },
            forall|k: Seq<char>| k != key@ ==> pending_of(final(self).open@, k) == pending_of(old(self).open@, k),
            forall|i: int| 0 <= i < final(self).open@.len() ==> opened_before(old(self).open@, #[trigger] final(self).open@[i], now),
            event.byte_size <= old(self).config.max_bytes ==> push_effect(
                old(self).config,
                pending_of(old(self).open@, key@),
                event,
                r.flushed@,
                pending_of(final(self).open@, key@),
            ),
    {
        let cfg = self.config;
        let mut flushed: Vec<Batch> = Vec::new();
        if event.byte_size > cfg.max_bytes {
            return PushOutcome { flushed, rejected: Some(event) };
        }
        let ghost s0 = self.open@;
        let ghost ev = event;
        match self.find(&key) {
            Some(i) => {
                proof { lemma_pending_at(s0, i as int); }
                let mut b = self.open.remove(i);
                assert(batch_ok(b, cfg));
                if b.size > cfg.max_bytes - event.byte_size {
                    let ghost old_events = b.events@;
                    let sz = event.byte_size;
                    flushed.push(b);
                    let mut evs: Vec<Event> = Vec::new();
                    evs.push(event);
                    let nb = Batch { key, events: evs, size: sz, opened_at: now };
                    proof { lemma_total_one(nb.events@); }
                    assert(batch_ok(nb, cfg));
                    proof { lemma_batched_one(flushed@); }
                    if cfg.max_events == 1 {
                        let ghost f0 = flushed@;
                        flushed.push(nb);
                        proof {
                            lemma_remove(s0, i as int);
                            assert(flushed@.drop_last() =~= f0);
                            lemma_batched_one(f0);
                            assert(batched_events(flushed@) =~= old_events.push(ev));
                        }
                    } else {
                        proof {
                            lemma_update(s0, i as int, nb);
                            assert(s0.remove(i as int).insert(i as int, nb) =~= s0.update(i as int, nb));
                            assert(flushed@.drop_last() =~= Seq::<Batch>::empty());
                            assert(batched_events(flushed@) + nb.events@ =~= old_events.push(ev));
                        }
                        self.open.insert(i, nb);
                    }
                } else {
                    let ghost old_events = b.events@;
                    b.size = b.size + event.byte_size;
                    b.events.push(event);
                    assert(b.events@.drop_last() =~= old_events);
                    assert(batch_ok(b, cfg));
                    if b.events.len() == cfg.max_events {
                        flushed.push(b);
                        proof {
                            lemma_remove(s0, i as int);
                            lemma_batched_one(flushed@);
                            assert(batched_events(flushed@) =~= old_events.push(ev));
                        }
                    } else {
                        proof {
                            lemma_update(s0, i as int, b);
                            assert(s0.remove(i as int).insert(i as int, b) =~= s0.update(i as int, b));
                            assert(batched_events(flushed@) + b.events@ =~= old_events.push(ev));
                        }
                        self.open.insert(i, b);
                    }
                }
            },
            None => {
                let sz = event.byte_size;
                let mut evs: Vec<Event> = Vec::new();
                evs.push(event);
                let nb = Batch { key, events: evs, size: sz, opened_at: now };
                proof { lemma_total_one(nb.events@); }
                assert(batch_ok(nb, cfg));
                if cfg.max_events == 1 {
                    flushed.push(nb);
                    proof {
                        lemma_batched_one(flushed@);
                        assert(nb.events@ =~= seq![ev]);
                        assert(batched_events(flushed@) =~= seq![ev]);
                    }
                } else {
                    proof {
                        lemma_push(s0, nb);
                        assert(batched_events(flushed@) + nb.events@ =~= seq![ev]);
                    }
                    self.open.push(nb);
                }
            },
        }
        PushOutcome { flushed, rejected: None }
    }
}

impl Batcher {
    /// Closes every batch that has stayed open `timeout_ms` or longer at `now`.
    /// The closed batches come back in the order they were held; the others
    /// stay open.
    pub fn tick(&mut self, now: u64) -> (r: Vec<Batch>)
        requires
            old(self).wf(),
        ensures
            final(self).wf(),
            final(self).config == old(self).config,
            r@ == by_expiry(old(self).open@, now, old(self).config.timeout_ms, true),
            final(self).open@ == by_expiry(old(self).open@, now, old(self).config.timeout_ms, false),
            forall|i: int| 0 <= i < r@.len() ==> batch_ok(#[trigger] r@[i], old(self).config),
            forall|i: int| 0 <= i < r@.len() ==> expired(#[trigger] r@[i], now, old(self).config.timeout_ms),
            forall|i: int| 0 <= i < final(self).open@.len() ==> !expired(#[trigger] final(self).open@[i], now, old(self).config.timeout_ms),
    {
        let timeout = self.config.timeout_ms;
        let mut rest: Vec<Batch> = Vec::new();
        std::mem::swap(&mut rest, &mut self.open);
        let ghost orig = rest@;
        let mut out: Vec<Batch> = Vec::new();
        let mut live: Vec<Batch> = Vec::new();
        let ghost mut j: int = 0;
        assert(orig.subrange(0, 0) =~= Seq::<Batch>::empty());
        assert(orig.subrange(0, orig.len() as int) =~= orig);
        while rest.len() > 0
            invariant
                0 <= j <= orig.len(),
                rest@ == orig.subrange(j, orig.len() as int),
                out@ == by_expiry(orig.subrange(0, j), now, timeout, true),
                live@ == by_expiry(orig.subrange(0, j), now, timeout, false),
            decreases rest.len(),
        {
            let b = rest.remove(0);
            assert(orig.subrange(0, j + 1).drop_last() =~= orig.subrange(0, j));
            assert(orig.subrange(0, j + 1).last() == b);
            assert(rest@ =~= orig.subrange(j + 1, orig.len() as int));
            if now >= b.opened_at && now - b.opened_at >= timeout {
                out.push(b);
            } else {
                live.push(b);
            }
            proof { j = j + 1; }
        }
        assert(orig.subrange(0, j) =~= orig);
        proof {
            lemma_by_expiry(orig, now, timeout, true);
            lemma_by_expiry(orig, now, timeout, false);
            assert forall|i: int| 0 <= i < out@.len() implies batch_ok(#[trigger] out@[i], self.config) && expired(out@[i], now, timeout) by {
                assert(out@.contains(out@[i]));
                let k = choose|k: int| 0 <= k < orig.len() && orig[k] == out@[i];
                assert(batch_ok(orig[k], self.config));
            }
            assert forall|i: int| 0 <= i < live@.len() implies batch_ok(#[trigger] live@[i], self.config)
                && live@[i].events@.len() < self.config.max_events && !expired(live@[i], now, timeout) by {
                assert(live@.contains(live@[i]));
                let k = choose|k: int| 0 <= k < orig.len() && orig[k] == live@[i];
                assert(batch_ok(orig[k], self.config));
            }
        }
        self.open = live;
        out
    }

    /// Closes every open batch, whatever its fill level, for shutdown.
    pub fn drain(&mut self) -> (r: Vec<Batch>)
        requires
            old(self).wf(),
        ensures
            final(self).wf(),
            final(self).config == old(self).config,
            final(self).open@.len() == 0,
            r@ == old(self).open@,
            forall|i: int| 0 <= i < r@.len() ==> batch_ok(#[trigger] r@[i], old(self).config),
    {
        let mut out: Vec<Batch> = Vec::new();
        std::mem::swap(&mut out, &mut self.open);
        out
    }
}

} // verus!
