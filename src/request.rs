//! Request building: one batch becomes one JSON request body plus the
//! finalizers of the events that made it into the body.
use vstd::prelude::*;
use vstd::string::*;
use crate::event::{Event, Finalizer, Timestamp, all_finalizers, total_size};
use crate::outside::{json_quoted, rfc3339_of, utf8_lossy_of, json_quote, format_rfc3339, utf8_lossy};

verus! {

/// Accounting derived from the events that survived encoding.
#[derive(Debug, Clone, Copy, PartialEq, Eq, Structural)]
pub struct RequestMetadata {
    pub event_count: usize,
    pub events_byte_size: usize,
    pub request_encoded_size: usize,
}

/// A transport-ready request: the JSON body, the finalizers it owns and its accounting.
#[derive(Debug, Clone)]
pub struct ChronicleRequest {
    pub body: String,
    pub finalizers: Vec<Finalizer>,
    pub metadata: RequestMetadata,
}

impl ChronicleRequest {
    /// Hands the finalizers over for resolution, leaving the request with none.
    pub fn take_finalizers(&mut self) -> (r: Vec<Finalizer>)
        ensures
            r@ == old(self).finalizers@,
            final(self).finalizers@.len() == 0,
            final(self).body@ == old(self).body@,
            final(self).metadata == old(self).metadata,
    {
        let mut out: Vec<Finalizer> = Vec::new();
        std::mem::swap(&mut out, &mut self.finalizers);
        out
    }
}

/// What request building yields: the request and the finalizers of the
/// events that failed to encode, to resolve as rejected at once.
#[derive(Debug, Clone)]
pub struct BuildOutcome {
    pub request: ChronicleRequest,
    pub rejected: Vec<Finalizer>,
}

/// The optional `ts_rfc3339` member of an entry.
pub open spec fn ts_member(ts: Option<Timestamp>) -> Seq<char> {
    match ts {
        None => Seq::empty(),
        Some(t) => match rfc3339_of(t.secs as int, t.nanos as int) {
            None => Seq::empty(),
            Some(s) => ",\"ts_rfc3339\":"@ + json_quoted(s),
        },
    }
}

/// The JSON entry of one event given what the encoder made of it; `None`
/// when the encoder failed on it.
pub open spec fn entry_text(e: Event, enc: Option<Vec<u8>>) -> Option<Seq<char>> {
    match enc {
        None => None,
        Some(b) => Some("{\"log_text\":"@ + json_quoted(utf8_lossy_of(b@)) + ts_member(e.timestamp) + "}"@),
    }
}

/// The entries of the events that encoded, joined by commas.
pub open spec fn joined_entries(events: Seq<Event>, encs: Seq<Option<Vec<u8>>>) -> Seq<char>
    decreases events.len(),
{
    if events.len() == 0 || encs.len() == 0 {
        Seq::empty()
    } else {
        let pre = joined_entries(events.drop_last(), encs.drop_last());
        match entry_text(events.last(), encs.last()) {
            None => pre,
            Some(t) => if pre.len() == 0 {
                t
            } else {
                pre + ","@ + t
            },
        }
    }
}

/// Finalizers of the events that encoded (`keep`) or of those that did not.
pub open spec fn finalizers_by_outcome(events: Seq<Event>, encs: Seq<Option<Vec<u8>>>, keep: bool) -> Seq<Finalizer>
    decreases events.len(),
{
    if events.len() == 0 || encs.len() == 0 {
        Seq::empty()
    } else {
        let pre = finalizers_by_outcome(events.drop_last(), encs.drop_last(), keep);
        if (entry_text(events.last(), encs.last()) is Some) == keep {
            pre + events.last().finalizers@
        } else {
            pre
        }
    }
}

/// How many events encoded.
pub open spec fn kept_count(events: Seq<Event>, encs: Seq<Option<Vec<u8>>>) -> int
    decreases events.len(),
{
    if events.len() == 0 || encs.len() == 0 {
        0
    } else {
        kept_count(events.drop_last(), encs.drop_last()) + if entry_text(events.last(), encs.last()) is Some {
            1int
        } else {
            0int
        }
    }
}

/// Summed admission size of the events that encoded.
pub open spec fn kept_size(events: Seq<Event>, encs: Seq<Option<Vec<u8>>>) -> int
    decreases events.len(),
{
    if events.len() == 0 || encs.len() == 0 {
        0
    } else {
        kept_size(events.drop_last(), encs.drop_last()) + if entry_text(events.last(), encs.last()) is Some {
            events.last().byte_size as int
        } else {
            0int
        }
    }
}

/// The request body: `customer_id`, `entries` and `log_type`, in that order.
pub open spec fn body_text(customer_id: Seq<char>, key: Seq<char>, events: Seq<Event>, encs: Seq<Option<Vec<u8>>>) -> Seq<char> {
    "{\"customer_id\":"@ + json_quoted(customer_id) + ",\"entries\":["@ + joined_entries(events, encs) + "],\"log_type\":"@
        + json_quoted(key) + "}"@
}

/// The JSON entry for one event, from the encoder's output for it.
pub fn encode_entry(e: &Event, enc: &Option<Vec<u8>>) -> (r: Option<String>)
    ensures
        match r {
            Some(t) => entry_text(*e, *enc) == Some(t@),
            None => entry_text(*e, *enc) is None,
        },
{
    match enc {
        None => None,
        Some(b) => {
            let text = utf8_lossy(b);
            let q = json_quote(text.as_str());
            let mut out = String::from_str("{\"log_text\":");
            out.append(q.as_str());
            match e.timestamp {
                None => {},
                Some(t) => match format_rfc3339(t.secs, t.nanos) {
                    None => {},
                    Some(s) => {
                        let qs = json_quote(s.as_str());
                        out.append(",\"ts_rfc3339\":");
                        out.append(qs.as_str());
                    },
                },
            }
            out.append("}");
            Some(out)
        },
    }
}

fn push_all(dst: &mut Vec<Finalizer>, src: &Vec<Finalizer>)
    ensures
        final(dst)@ == old(dst)@ + src@,
{
    let n = src.len();
    let mut i: usize = 0;
    while i < n
        invariant
            i <= n,
            n == src@.len(),
            dst@ == old(dst)@ + src@.subrange(0, i as int),
        decreases n - i,
    {
        dst.push(src[i]);
        i = i + 1;
    }
    assert(src@.subrange(0, n as int) =~= src@);
}

proof fn lemma_kept_size_bounded(events: Seq<Event>, encs: Seq<Option<Vec<u8>>>)
    ensures
        0 <= kept_size(events, encs) <= total_size(events),
    decreases events.len(),
{
    if events.len() > 0 && encs.len() > 0 {
        lemma_kept_size_bounded(events.drop_last(), encs.drop_last());
    } else if events.len() > 0 {
        lemma_total_size_nonneg(events);
    }
}

proof fn lemma_total_size_nonneg(events: Seq<Event>)
    ensures
        total_size(events) >= 0,
    decreases events.len(),
{
    if events.len() > 0 {
        lemma_total_size_nonneg(events.drop_last());
    }
}

proof fn lemma_total_size_prefix(events: Seq<Event>, i: int)
    requires
        0 <= i <= events.len(),
    ensures
        total_size(events.subrange(0, i)) <= total_size(events),
    decreases events.len() - i,
{
    if i < events.len() {
        lemma_total_size_prefix(events, i + 1);
        assert(events.subrange(0, i + 1).drop_last() =~= events.subrange(0, i));
    } else {
        assert(events.subrange(0, i) =~= events);
    }
}

/// Builds the request for the events of one batch under partition `key`,
/// given the encoder's output for each event (`None` where it failed).
/// Events that fail to encode are left out of the body and their finalizers
/// come back as rejected; the batch itself always becomes a request.
pub fn build_request(customer_id: &String, key: &String, events: &Vec<Event>, encoded: &Vec<Option<Vec<u8>>>) -> (r: BuildOutcome)
    requires
        encoded@.len() == events@.len(),
        total_size(events@) <= usize::MAX,
    ensures
        r.request.body@ == body_text(customer_id@, key@, events@, encoded@),
        r.request.finalizers@ == finalizers_by_outcome(events@, encoded@, true),
        r.request.metadata.event_count == kept_count(events@, encoded@),
        r.request.metadata.events_byte_size == kept_size(events@, encoded@),
        r.request.metadata.request_encoded_size == vstd::utf8::encode_utf8(r.request.body@).len() as usize,
        r.rejected@ == finalizers_by_outcome(events@, encoded@, false),
{
    let qc = json_quote(customer_id.as_str());
    let qk = json_quote(key.as_str());
    let mut entries = String::new();
    let mut kept: Vec<Finalizer> = Vec::new();
    let mut dropped: Vec<Finalizer> = Vec::new();
    let mut count: usize = 0;
    let mut size: usize = 0;
    let n = events.len();
    let mut i: usize = 0;
    while i < n
        invariant
            i <= n,
            n == events@.len(),
            n == encoded@.len(),
            total_size(events@) <= usize::MAX,
            entries@ == joined_entries(events@.subrange(0, i as int), encoded@.subrange(0, i as int)),
            kept@ == finalizers_by_outcome(events@.subrange(0, i as int), encoded@.subrange(0, i as int), true),
            dropped@ == finalizers_by_outcome(events@.subrange(0, i as int), encoded@.subrange(0, i as int), false),
            count == kept_count(events@.subrange(0, i as int), encoded@.subrange(0, i as int)),
            count <= i,
            size == kept_size(events@.subrange(0, i as int), encoded@.subrange(0, i as int)),
        decreases n - i,
    {
        let ghost ev1 = events@.subrange(0, i + 1);
        let ghost en1 = encoded@.subrange(0, i + 1);
        assert(ev1.drop_last() =~= events@.subrange(0, i as int));
        assert(en1.drop_last() =~= encoded@.subrange(0, i as int));
        assert(ev1.last() == events@[i as int]);
        assert(en1.last() == encoded@[i as int]);
        proof {
            lemma_kept_size_bounded(ev1, en1);
            lemma_total_size_prefix(events@, i + 1);
        }
        match encode_entry(&events[i], &encoded[i]) {
            Some(t) => {
                if entries.as_str().is_empty() {
                    entries = t;
                } else {
                    entries.append(",");
                    entries.append(t.as_str());
                }
                push_all(&mut kept, &events[i].finalizers);
                count = count + 1;
                size = size + events[i].byte_size;
            },
            None => {
                push_all(&mut dropped, &events[i].finalizers);
            },
        }
        i = i + 1;
    }
    assert(events@.subrange(0, n as int) =~= events@);
    assert(encoded@.subrange(0, n as int) =~= encoded@);
    let mut body = String::from_str("{\"customer_id\":");
    body.append(qc.as_str());
    body.append(",\"entries\":[");
    body.append(entries.as_str());
    body.append("],\"log_type\":");
    body.append(qk.as_str());
    body.append("}");
    let encoded_size = body.as_str().len();
    let metadata = RequestMetadata { event_count: count, events_byte_size: size, request_encoded_size: encoded_size };
    BuildOutcome { request: ChronicleRequest { body, finalizers: kept, metadata }, rejected: dropped }
}

/// Every finalizer of a batch is handed on exactly once: either with the
/// request or among the rejected ones.
pub proof fn lemma_finalizers_conserved(events: Seq<Event>, encs: Seq<Option<Vec<u8>>>)
    requires
        encs.len() == events.len(),
    ensures
        finalizers_by_outcome(events, encs, true).to_multiset().add(finalizers_by_outcome(events, encs, false).to_multiset())
            =~= all_finalizers(events).to_multiset(),
    decreases events.len(),
{
    broadcast use vstd::seq_lib::lemma_multiset_commutative;
    broadcast use vstd::multiset::group_multiset_axioms;
    broadcast use vstd::seq_lib::group_to_multiset_ensures;
    if events.len() > 0 {
        let pe = events.drop_last();
        let pn = encs.drop_last();
        lemma_finalizers_conserved(pe, pn);
        let f = events.last().finalizers@;
        let k = finalizers_by_outcome(pe, pn, true);
        let d = finalizers_by_outcome(pe, pn, false);
        assert((all_finalizers(pe) + f).to_multiset() =~= all_finalizers(pe).to_multiset().add(f.to_multiset()));
        if entry_text(events.last(), encs.last()) is Some {
            assert((k + f).to_multiset() =~= k.to_multiset().add(f.to_multiset()));
        } else {
            assert((d + f).to_multiset() =~= d.to_multiset().add(f.to_multiset()));
        }
    } else {
        assert(Seq::<Finalizer>::empty().to_multiset() =~= vstd::multiset::Multiset::empty());
    }
}

proof fn lemma_all_encoded(events: Seq<Event>, encs: Seq<Option<Vec<u8>>>)
    requires
        encs.len() == events.len(),
        forall|i: int| 0 <= i < events.len() ==> (#[trigger] entry_text(events[i], encs[i])) is Some,
    ensures
        kept_count(events, encs) == events.len(),
        finalizers_by_outcome(events, encs, false) == Seq::<Finalizer>::empty(),
        finalizers_by_outcome(events, encs, true) == all_finalizers(events),
    decreases events.len(),
{
    if events.len() > 0 {
        let n = events.len() - 1;
        assert(entry_text(events[n], encs[n]) is Some);
        assert forall|i: int| 0 <= i < n implies (#[trigger] entry_text(events.drop_last()[i], encs.drop_last()[i])) is Some by {
            assert(entry_text(events[i], encs[i]) is Some);
        }
        lemma_all_encoded(events.drop_last(), encs.drop_last());
    }
}

/// One event that the encoder fails on, among others that it encodes, costs
/// that event alone: the others all stay in the request, and exactly its
/// finalizers are rejected.
pub proof fn lemma_encoding_isolation(events: Seq<Event>, encs: Seq<Option<Vec<u8>>>, j: int)
    requires
        encs.len() == events.len(),
        0 <= j < events.len(),
        encs[j] is None,
        forall|i: int| 0 <= i < events.len() && i != j ==> (#[trigger] encs[i]) is Some,
    ensures
        kept_count(events, encs) == events.len() - 1,
        finalizers_by_outcome(events, encs, false) == events[j].finalizers@,
        finalizers_by_outcome(events, encs, true) == all_finalizers(events.remove(j)),
    decreases events.len(),
{
    let n = events.len() - 1;
    let pe = events.drop_last();
    let pn = encs.drop_last();
    if j == n {
        assert forall|i: int| 0 <= i < n implies (#[trigger] entry_text(pe[i], pn[i])) is Some by {
            assert(encs[i] is Some);
        }
        lemma_all_encoded(pe, pn);
        assert(events.remove(j) =~= pe);
    } else {
        assert(encs[n] is Some);
        assert forall|i: int| 0 <= i < n && i != j implies (#[trigger] pn[i]) is Some by {
            assert(encs[i] is Some);
        }
        assert(pn[j] is None);
        lemma_encoding_isolation(pe, pn, j);
        let rem = events.remove(j);
        assert(rem.drop_last() =~= pe.remove(j));
        assert(rem.last() == events.last());
    }
}

} // verus!
