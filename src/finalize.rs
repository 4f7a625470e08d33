//! Finalization: each producer batch waits on its outstanding finalizers and
//! completes `Delivered` only if none of them was rejected.
use vstd::prelude::*;
use crate::event::Finalizer;

verus! {

/// The verdict a producer sees for one of its batches.
#[derive(Debug, Clone, Copy, PartialEq, Eq, Structural)]
pub enum BatchStatus {
    Delivered,
    Rejected,
}

/// Why a resolution was refused.
#[derive(Debug, Clone, Copy, PartialEq, Eq, Structural)]
pub enum FinalizeError {
    UnknownBatch,
    AlreadyResolved,
}

/// A producer batch: the ids of its finalizers still owed an outcome, and
/// whether any of the resolved ones was rejected.
#[derive(Debug)]
pub struct ProducerBatch {
    pub id: u64,
    pub outstanding: Vec<u64>,
    pub failed: bool,
}

/// The mathematical state of a producer batch.
pub struct ProducerView {
    pub id: u64,
    pub outstanding: Seq<u64>,
    pub failed: bool,
}

pub open spec fn producer_view(p: ProducerBatch) -> ProducerView {
    ProducerView { id: p.id, outstanding: p.outstanding@, failed: p.failed }
}

/// The status a producer batch reports once nothing is outstanding.
pub open spec fn verdict(failed: bool) -> BatchStatus {
    if failed {
        BatchStatus::Rejected
    } else {
        BatchStatus::Delivered
    }
}

/// Index of the first producer batch with id `id`, if any.
pub open spec fn find_producer(s: Seq<ProducerView>, id: u64) -> Option<int>
    decreases s.len(),
{
    if s.len() == 0 {
        None
    } else {
        match find_producer(s.drop_last(), id) {
            Some(i) => Some(i),
            None => if s.last().id == id {
                Some(s.len() - 1)
            } else {
                None
            },
        }
    }
}

proof fn lemma_find_producer(s: Seq<ProducerView>, id: u64)
    ensures
        match find_producer(s, id) {
            Some(i) => 0 <= i < s.len() && s[i].id == id && forall|j: int| 0 <= j < i ==> (#[trigger] s[j]).id != id,
            None => forall|j: int| 0 <= j < s.len() ==> (#[trigger] s[j]).id != id,
        },
    decreases s.len(),
{
    if s.len() > 0 {
        let pre = s.drop_last();
        lemma_find_producer(pre, id);
        assert forall|j: int| 0 <= j < pre.len() implies pre[j] == #[trigger] s[j] by {}
    }
}

/// The first index with `id` is the only index that meets the description.
proof fn lemma_find_producer_is(s: Seq<ProducerView>, id: u64, i: int)
    requires
        0 <= i < s.len(),
        s[i].id == id,
        forall|j: int| 0 <= j < i ==> (#[trigger] s[j]).id != id,
    ensures
        find_producer(s, id) == Some(i),
{
    lemma_find_producer(s, id);
    match find_producer(s, id) {
        Some(c) => {
            if c < i {
                assert(s[c].id != id);
            } else if c > i {
                assert(s[i].id != id);
            }
        },
        None => {
            assert(s[i].id != id);
        },
    }
}

/// Resolving finalizer `f` with `status`: the new state and what the caller
/// learns (the producer's verdict when `f` was its last outstanding finalizer).
pub open spec fn resolve_step(s: Seq<ProducerView>, f: Finalizer, status: BatchStatus)
    -> (Seq<ProducerView>, Result<Option<BatchStatus>, FinalizeError>)
{
    match find_producer(s, f.batch) {
        None => (s, Err(FinalizeError::UnknownBatch)),
        Some(i) => {
            let p = s[i];
            if p.outstanding.contains(f.id) {
                let rest = p.outstanding.remove(p.outstanding.index_of(f.id));
                let failed = p.failed || status == BatchStatus::Rejected;
                let np = ProducerView { id: p.id, outstanding: rest, failed };
                (s.update(i, np), Ok(if rest.len() == 0 { Some(verdict(failed)) } else { None }))
            } else {
                (s, Err(FinalizeError::AlreadyResolved))
            }
        },
    }
}

/// Resolving a sequence of finalizers, all with one status.
pub open spec fn resolve_all(s: Seq<ProducerView>, fs: Seq<Finalizer>, status: BatchStatus) -> Seq<ProducerView>
    decreases fs.len(),
{
    if fs.len() == 0 {
        s
    } else {
        resolve_step(resolve_all(s, fs.drop_last(), status), fs.last(), status).0
    }
}

/// The outcome handed to one finalizer.
#[derive(Debug, Clone, Copy)]
pub struct Resolution {
    pub finalizer: Finalizer,
    pub status: BatchStatus,
    pub result: Result<Option<BatchStatus>, FinalizeError>,
}

/// The producer batches awaiting outcomes.
#[derive(Debug)]
pub struct FinalizationEngine {
    pub producers: Vec<ProducerBatch>,
}

pub open spec fn no_duplicates(s: Seq<u64>) -> bool {
    forall|a: int, b: int| 0 <= a < s.len() && 0 <= b < s.len() && a != b ==> s[a] != s[b]
}

pub open spec fn views_wf(s: Seq<ProducerView>) -> bool {
    forall|i: int| 0 <= i < s.len() ==> no_duplicates(#[trigger] s[i].outstanding)
}

/// Once a finalizer has been resolved, resolving it again is refused and
/// changes nothing.
pub proof fn lemma_no_double_resolution(s: Seq<ProducerView>, f: Finalizer, st1: BatchStatus, st2: BatchStatus)
    requires
        views_wf(s),
        resolve_step(s, f, st1).1 is Ok,
    ensures
        resolve_step(resolve_step(s, f, st1).0, f, st2).1 == Err::<Option<BatchStatus>, FinalizeError>(FinalizeError::AlreadyResolved),
        resolve_step(resolve_step(s, f, st1).0, f, st2).0 == resolve_step(s, f, st1).0,
{
    lemma_find_producer(s, f.batch);
    let i = find_producer(s, f.batch)->Some_0;
    let t = resolve_step(s, f, st1).0;
    let p = s[i];
    let k = p.outstanding.index_of(f.id);
    let rest = p.outstanding.remove(k);
    assert(t[i].id == f.batch);
    assert forall|j: int| 0 <= j < i implies (#[trigger] t[j]).id != f.batch by {
        assert(t[j] == s[j]);
    }
    lemma_find_producer_is(t, f.batch, i);
    assert(!rest.contains(f.id)) by {
        if rest.contains(f.id) {
            let m = choose|m: int| 0 <= m < rest.len() && rest[m] == f.id;
            if m < k {
                assert(p.outstanding[m] == f.id);
            } else {
                assert(p.outstanding[m + 1] == f.id);
            }
            assert(no_duplicates(s[i].outstanding));
        }
    }
}

/// When a resolution completes a producer batch, the verdict is `Rejected`
/// if this or an earlier resolution of that batch was a rejection, and
/// `Delivered` otherwise.
pub proof fn lemma_verdict_all_or_nothing(s: Seq<ProducerView>, f: Finalizer, status: BatchStatus)
    requires
        resolve_step(s, f, status).1 matches Ok(Some(_)),
    ensures
        ({
            let i = find_producer(s, f.batch)->Some_0;
            resolve_step(s, f, status).1 == Ok::<Option<BatchStatus>, FinalizeError>(
                Some(if s[i].failed || status == BatchStatus::Rejected { BatchStatus::Rejected } else { BatchStatus::Delivered }),
            )
        }),
{
}

/// Resolutions that all deliver never mark a producer batch as failed.
pub proof fn lemma_delivered_never_fails(s: Seq<ProducerView>, fs: Seq<Finalizer>)
    ensures
        resolve_all(s, fs, BatchStatus::Delivered).len() == s.len(),
        forall|i: int| 0 <= i < s.len() ==> {
            &&& (#[trigger] resolve_all(s, fs, BatchStatus::Delivered)[i]).failed == s[i].failed
            &&& resolve_all(s, fs, BatchStatus::Delivered)[i].id == s[i].id
        },
    decreases fs.len(),
{
    if fs.len() > 0 {
        lemma_delivered_never_fails(s, fs.drop_last());
        let t = resolve_all(s, fs.drop_last(), BatchStatus::Delivered);
        lemma_find_producer(t, fs.last().batch);
    }
}

/// An accepted rejection leaves its producer batch marked as failed, so its
/// verdict can only be `Rejected`.
pub proof fn lemma_rejection_marks_failed(s: Seq<ProducerView>, f: Finalizer)
    requires
        resolve_step(s, f, BatchStatus::Rejected).1 is Ok,
    ensures
        ({
            let i = find_producer(s, f.batch)->Some_0;
            &&& 0 <= i < s.len()
            &&& resolve_step(s, f, BatchStatus::Rejected).0[i].failed
        }),
{
    lemma_find_producer(s, f.batch);
}

/// Finalizer `f` is still owed an outcome in `s`.
pub open spec fn outstanding_in(s: Seq<ProducerView>, f: Finalizer) -> bool {
    find_producer(s, f.batch) matches Some(i) && s[i].outstanding.contains(f.id)
}

proof fn lemma_find_after_update(t: Seq<ProducerView>, i: int, np: ProducerView, id: u64)
    requires
        0 <= i < t.len(),
        np.id == t[i].id,
    ensures
        find_producer(t.update(i, np), id) == find_producer(t, id),
{
    let u = t.update(i, np);
    lemma_find_producer(t, id);
    lemma_find_producer(u, id);
    match find_producer(t, id) {
        Some(c) => {
            assert forall|j: int| 0 <= j < c implies (#[trigger] u[j]).id != id by {
                assert(t[j].id != id);
            }
            lemma_find_producer_is(u, id, c);
        },
        None => {
            if let Some(c) = find_producer(u, id) {
                assert(t[c].id == u[c].id);
            }
        },
    }
}

proof fn lemma_step_facts(t: Seq<ProducerView>, f: Finalizer, st: BatchStatus, g: Finalizer)
    requires
        views_wf(t),
    ensures
        views_wf(resolve_step(t, f, st).0),
        resolve_step(t, f, st).0.len() == t.len(),
        outstanding_in(t, f) <==> resolve_step(t, f, st).1 is Ok,
        !outstanding_in(resolve_step(t, f, st).0, f),
        g != f ==> (outstanding_in(resolve_step(t, f, st).0, g) <==> outstanding_in(t, g)),
{
    lemma_find_producer(t, f.batch);
    if outstanding_in(t, f) {
        lemma_no_double_resolution(t, f, st, st);
        let i = find_producer(t, f.batch)->Some_0;
        let p = t[i];
        let k = p.outstanding.index_of(f.id);
        let rest = p.outstanding.remove(k);
        let np = ProducerView { id: p.id, outstanding: rest, failed: p.failed || st == BatchStatus::Rejected };
        let u = t.update(i, np);
        assert(no_duplicates(p.outstanding));
        assert(no_duplicates(rest)) by {
            assert forall|a: int, b: int| 0 <= a < rest.len() && 0 <= b < rest.len() && a != b implies rest[a] != rest[b] by {
                let a2 = if a < k { a } else { a + 1 };
                let b2 = if b < k { b } else { b + 1 };
                assert(rest[a] == p.outstanding[a2]);
                assert(rest[b] == p.outstanding[b2]);
            }
        }
        assert(views_wf(u)) by {
            assert forall|j: int| 0 <= j < u.len() implies no_duplicates(#[trigger] u[j].outstanding) by {
                if j != i {
                    assert(u[j] == t[j]);
                }
            }
        }
        lemma_find_after_update(t, i, np, g.batch);
        lemma_find_after_update(t, i, np, f.batch);
        if g != f {
            if find_producer(t, g.batch) == Some(i) {
                if g.batch == f.batch {
                    assert(g.id != f.id);
                    if p.outstanding.contains(g.id) {
                        let m = choose|m: int| 0 <= m < p.outstanding.len() && p.outstanding[m] == g.id;
                        assert(m != k);
                        let m2 = if m < k { m } else { m - 1 };
                        assert(rest[m2] == g.id);
                    }
                    if rest.contains(g.id) {
                        let m = choose|m: int| 0 <= m < rest.len() && rest[m] == g.id;
                        let m2 = if m < k { m } else { m + 1 };
                        assert(p.outstanding[m2] == g.id);
                    }
                } else {
                    lemma_find_producer(t, g.batch);
                }
            } else if let Some(c) = find_producer(t, g.batch) {
                lemma_find_producer(t, g.batch);
                assert(u[c] == t[c]);
            }
        }
        assert(resolve_step(t, f, st).0 == u);
    } else {
        lemma_find_producer(t, g.batch);
    }
}

/// Resolving distinct finalizers that are all owed an outcome gives each of
/// them exactly one accepted resolution, in order, and leaves none of them
/// owed anything afterwards: none is resolved twice and none is left over.
pub proof fn lemma_each_resolved_once(s: Seq<ProducerView>, fs: Seq<Finalizer>, st: BatchStatus)
    requires
        views_wf(s),
        forall|a: int, b: int| 0 <= a < fs.len() && 0 <= b < fs.len() && a != b ==> fs[a] != fs[b],
        forall|k: int| 0 <= k < fs.len() ==> outstanding_in(s, #[trigger] fs[k]),
    ensures
        views_wf(resolve_all(s, fs, st)),
        forall|k: int| 0 <= k < fs.len() ==> (#[trigger] resolve_step(resolve_all(s, fs.subrange(0, k), st), fs[k], st).1) is Ok,
        forall|k: int| 0 <= k < fs.len() ==> !outstanding_in(resolve_all(s, fs, st), #[trigger] fs[k]),
        forall|g: Finalizer| !fs.contains(g) ==> (outstanding_in(resolve_all(s, fs, st), g) <==> outstanding_in(s, g)),
    decreases fs.len(),
{
    if fs.len() > 0 {
        let n = fs.len() - 1;
        let pre = fs.drop_last();
        let f = fs[n];
        assert forall|k: int| 0 <= k < pre.len() implies outstanding_in(s, #[trigger] pre[k]) by {
            assert(pre[k] == fs[k]);
        }
        lemma_each_resolved_once(s, pre, st);
        let t = resolve_all(s, pre, st);
        assert(!pre.contains(f)) by {
            if pre.contains(f) {
                let m = choose|m: int| 0 <= m < pre.len() && pre[m] == f;
                assert(fs[m] == fs[n]);
            }
        }
        assert(outstanding_in(t, f));
        assert(fs.subrange(0, n) =~= pre);
        assert(fs.last() == f);
        assert forall|g: Finalizer| #![auto] true implies (g != f ==> (outstanding_in(resolve_step(t, f, st).0, g) <==> outstanding_in(t, g)))
            && !outstanding_in(resolve_step(t, f, st).0, f) && views_wf(resolve_step(t, f, st).0) && (resolve_step(t, f, st).1 is Ok) by {
            lemma_step_facts(t, f, st, g);
        }
        assert forall|k: int| 0 <= k < fs.len() implies (#[trigger] resolve_step(resolve_all(s, fs.subrange(0, k), st), fs[k], st).1) is Ok by {
            if k < n {
                assert(fs.subrange(0, k) =~= pre.subrange(0, k));
                assert(pre[k] == fs[k]);
            }
        }
        assert forall|k: int| 0 <= k < fs.len() implies !outstanding_in(resolve_all(s, fs, st), #[trigger] fs[k]) by {
            if k < n {
                assert(pre[k] == fs[k]);
                assert(fs[k] != f);
            }
        }
        assert forall|g: Finalizer| !fs.contains(g) implies (outstanding_in(resolve_all(s, fs, st), g) <==> outstanding_in(s, g)) by {
            assert(g != f) by {
                assert(fs[n] == f);
            }
            assert(!pre.contains(g)) by {
                if pre.contains(g) {
                    let m = choose|m: int| 0 <= m < pre.len() && pre[m] == g;
                    assert(fs[m] == g);
                }
            }
        }
    }
}

pub open spec fn views_of(s: Seq<ProducerBatch>) -> Seq<ProducerView> {
    Seq::new(s.len(), |i: int| producer_view(s[i]))
}

fn distinct(ids: &Vec<u64>) -> (r: bool)
    ensures
        r == no_duplicates(ids@),
{
    let n = ids.len();
    let mut a: usize = 0;
    while a < n
        invariant
            n == ids@.len(),
            a <= n,
            forall|x: int, y: int| 0 <= x < a && 0 <= y < n && x != y ==> ids@[x] != ids@[y],
        decreases n - a,
    {
        let mut b: usize = 0;
        while b < n
            invariant
                n == ids@.len(),
                a < n,
                b <= n,
                forall|x: int, y: int| 0 <= x < a && 0 <= y < n && x != y ==> ids@[x] != ids@[y],
                forall|y: int| 0 <= y < b && y != a ==> ids@[a as int] != ids@[y],
            decreases n - b,
        {
            if b != a && ids[a] == ids[b] {
                return false;
            }
            b = b + 1;
        }
        a = a + 1;
    }
    true
}

impl FinalizationEngine {
    pub open spec fn view(&self) -> Seq<ProducerView> {
        views_of(self.producers@)
    }

    pub open spec fn wf(&self) -> bool {
        views_wf(self.view())
    }

    /// An engine with no producer batch.
    pub fn new() -> (r: FinalizationEngine)
        ensures
            r.wf(),
            r.view().len() == 0,
    {
        FinalizationEngine { producers: Vec::new() }
    }

    /// Starts tracking producer batch `id` with the finalizer ids `ids`;
    /// refused (returns `false`, nothing changes) when an id repeats.
    pub fn register(&mut self, id: u64, ids: Vec<u64>) -> (r: bool)
        requires
            old(self).wf(),
        ensures
            final(self).wf(),
            r == no_duplicates(ids@),
            r ==> final(self).view() == old(self).view().push(ProducerView { id, outstanding: ids@, failed: false }),
            !r ==> final(self).view() == old(self).view(),
    {
        if !distinct(&ids) {
            return false;
        }
        let ghost v0 = self.view();
        self.producers.push(ProducerBatch { id, outstanding: ids, failed: false });
        assert(self.view() =~= v0.push(ProducerView { id, outstanding: ids@, failed: false }));
        true
    }

    /// Resolves one finalizer with `status`; see `resolve_step`.
    pub fn resolve_one(&mut self, f: Finalizer, status: BatchStatus) -> (r: Result<Option<BatchStatus>, FinalizeError>)
        requires
            old(self).wf(),
        ensures
            final(self).wf(),
            (final(self).view(), r) == resolve_step(old(self).view(), f, status),
    {
        let ghost v0 = self.view();
        proof { lemma_find_producer(v0, f.batch); }
        let n = self.producers.len();
        let mut i: usize = 0;
        while i < n && self.producers[i].id != f.batch
            invariant
                i <= n,
                n == self.producers@.len(),
                self.view() == v0,
                forall|j: int| 0 <= j < i ==> (#[trigger] v0[j]).id != f.batch,
            decreases n - i,
        {
            i = i + 1;
        }
        if i == n {
            return Err(FinalizeError::UnknownBatch);
        }
        proof { lemma_find_producer_is(v0, f.batch, i as int); }
        let m = self.producers[i].outstanding.len();
        let mut k: usize = 0;
        while k < m && self.producers[i].outstanding[k] != f.id
            invariant
                i < n,
                n == self.producers@.len(),
                self.view() == v0,
                k <= m,
                m == self.producers@[i as int].outstanding@.len(),
                forall|j: int| 0 <= j < k ==> self.producers@[i as int].outstanding@[j] != f.id,
            decreases m - k,
        {
            k = k + 1;
        }
        let ghost p = v0[i as int];
        assert(p.outstanding == self.producers@[i as int].outstanding@);
        if k == m {
            assert(!p.outstanding.contains(f.id));
            return Err(FinalizeError::AlreadyResolved);
        }
        assert(p.outstanding.contains(f.id));
        assert(p.outstanding.index_of(f.id) == k as int) by {
            assert(no_duplicates(v0[i as int].outstanding));
        }
        let mut pb = self.producers.remove(i);
        pb.outstanding.remove(k);
        pb.failed = pb.failed || status == BatchStatus::Rejected;
        let done = pb.outstanding.len() == 0;
        let failed = pb.failed;
        self.producers.insert(i, pb);
        let ghost np = ProducerView { id: p.id, outstanding: p.outstanding.remove(k as int), failed };
        assert(self.view() =~= v0.update(i as int, np));
        assert(no_duplicates(np.outstanding)) by {
            assert forall|a: int, b: int| 0 <= a < np.outstanding.len() && 0 <= b < np.outstanding.len() && a != b
                implies np.outstanding[a] != np.outstanding[b] by {
                let a2 = if a < k { a } else { a + 1 };
                let b2 = if b < k { b } else { b + 1 };
                assert(np.outstanding[a] == p.outstanding[a2]);
                assert(np.outstanding[b] == p.outstanding[b2]);
                assert(no_duplicates(v0[i as int].outstanding));
            }
        }
        assert(views_wf(self.view())) by {
            assert forall|j: int| 0 <= j < self.view().len() implies no_duplicates(#[trigger] self.view()[j].outstanding) by {
                if j != i {
                    assert(self.view()[j] == v0[j]);
                }
            }
        }
        if done {
            Ok(Some(if failed { BatchStatus::Rejected } else { BatchStatus::Delivered }))
        } else {
            Ok(None)
        }
    }

    /// Resolves every finalizer of one request with the request's single
    /// outcome, in order, and reports what each resolution gave.
    pub fn resolve(&mut self, finalizers: &Vec<Finalizer>, status: BatchStatus) -> (r: Vec<Resolution>)
        requires
            old(self).wf(),
        ensures
            final(self).wf(),
            final(self).view() == resolve_all(old(self).view(), finalizers@, status),
            r@.len() == finalizers@.len(),
            forall|i: int| 0 <= i < r@.len() ==> (#[trigger] r@[i]).finalizer == finalizers@[i] && r@[i].status == status,
            forall|i: int| 0 <= i < r@.len() ==> (#[trigger] r@[i]).result
                == resolve_step(resolve_all(old(self).view(), finalizers@.subrange(0, i), status), finalizers@[i], status).1,
    {
        let ghost v0 = self.view();
        let mut out: Vec<Resolution> = Vec::new();
        let n = finalizers.len();
        let mut i: usize = 0;
        while i < n
            invariant
                i <= n,
                n == finalizers@.len(),
                self.wf(),
                self.view() == resolve_all(v0, finalizers@.subrange(0, i as int), status),
                out@.len() == i,
                forall|j: int| 0 <= j < i ==> (#[trigger] out@[j]).finalizer == finalizers@[j] && out@[j].status == status,
                forall|j: int| 0 <= j < i ==> (#[trigger] out@[j]).result
                    == resolve_step(resolve_all(v0, finalizers@.subrange(0, j), status), finalizers@[j], status).1,
            decreases n - i,
        {
            let f = finalizers[i];
            assert(finalizers@.subrange(0, i + 1).drop_last() =~= finalizers@.subrange(0, i as int));
            let res = self.resolve_one(f, status);
            out.push(Resolution { finalizer: f, status, result: res });
            i = i + 1;
        }
        assert(finalizers@.subrange(0, n as int) =~= finalizers@);
        out
    }
}

} // verus!
