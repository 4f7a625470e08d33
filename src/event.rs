//! Events, their timestamps and the finalizer handles they carry.
use vstd::prelude::*;

verus! {

/// A delivery obligation owed to the producer batch `batch`; `id` tells the
/// obligations of one producer batch apart.
#[derive(Debug, Clone, Copy, PartialEq, Eq, Structural)]
pub struct Finalizer {
    pub batch: u64,
    pub id: u64,
}

/// A point in time as seconds and nanoseconds since the Unix epoch.
#[derive(Debug, Clone, Copy, PartialEq, Eq, Structural)]
pub struct Timestamp {
    pub secs: i64,
    pub nanos: u32,
}

/// A structured log record: named text fields, an optional timestamp, the
/// size it was measured at on admission, and its finalizers.
#[derive(Debug, Clone)]
pub struct Event {
    pub fields: Vec<(String, String)>,
    pub timestamp: Option<Timestamp>,
    pub byte_size: usize,
    pub finalizers: Vec<Finalizer>,
}

/// The value of the first field named `name`.
pub open spec fn field_value(fields: Seq<(String, String)>, name: Seq<char>) -> Option<Seq<char>>
    decreases fields.len(),
{
    if fields.len() == 0 {
        None
    } else if fields[0].0@ == name {
        Some(fields[0].1@)
    } else {
        field_value(fields.drop_first(), name)
    }
}

/// All finalizers of a sequence of events, in order.
pub open spec fn all_finalizers(events: Seq<Event>) -> Seq<Finalizer>
    decreases events.len(),
{
    if events.len() == 0 {
        Seq::empty()
    } else {
        all_finalizers(events.drop_last()) + events.last().finalizers@
    }
}

/// Sum of the admission sizes of a sequence of events.
pub open spec fn total_size(events: Seq<Event>) -> int
    decreases events.len(),
{
    if events.len() == 0 {
        0
    } else {
        total_size(events.drop_last()) + events.last().byte_size
    }
}

impl Event {
    /// An event with the given fields, no timestamp and no finalizers.
    pub fn new(fields: Vec<(String, String)>, byte_size: usize) -> (r: Event)
        ensures
            r.fields@ == fields@,
            r.timestamp is None,
            r.byte_size == byte_size,
            r.finalizers@.len() == 0,
    {
        Event { fields, timestamp: None, byte_size, finalizers: Vec::new() }
    }

    /// The value of the first field named `name`.
    pub fn get(&self, name: &String) -> (r: Option<&String>)
        ensures
            match r {
                Some(v) => field_value(self.fields@, name@) == Some(v@),
                None => field_value(self.fields@, name@) is None,
            },
    {
        let n = self.fields.len();
        let mut i: usize = 0;
        assert(self.fields@.subrange(0, n as int) =~= self.fields@);
        while i < n
            invariant
                i <= n,
                n == self.fields@.len(),
                field_value(self.fields@.subrange(i as int, n as int), name@) == field_value(self.fields@, name@)
                    || i == 0,
                i == 0 ==> self.fields@.subrange(i as int, n as int) == self.fields@,
            decreases n - i,
        {
            let sub = Ghost(self.fields@.subrange(i as int, n as int));
            if self.fields[i].0 == *name {
                return Some(&self.fields[i].1);
            }
            assert(sub@.drop_first() =~= self.fields@.subrange(i + 1, n as int));
            i = i + 1;
        }
        None
    }

    /// Hands the finalizers over, leaving the event with none.
    pub fn take_finalizers(&mut self) -> (r: Vec<Finalizer>)
        ensures
            r@ == old(self).finalizers@,
            final(self).finalizers@.len() == 0,
            final(self).fields@ == old(self).fields@,
            final(self).timestamp == old(self).timestamp,
            final(self).byte_size == old(self).byte_size,
    {
        let mut out: Vec<Finalizer> = Vec::new();
        std::mem::swap(&mut out, &mut self.finalizers);
        out
    }
}

} // verus!
