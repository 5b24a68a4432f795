//! The persistence sink: a storage capability accepts single events and
//! answers queries, an in-memory implementation of it, and the batch flush
//! that workers use — one event at a time, where a per-event failure is
//! recorded and does not abort the rest of the batch.

use vstd::prelude::*;

use crate::event::Event;
use crate::event::EventError;
use crate::event::EventQuery;
use crate::query::event_matches;
use crate::query::event_matches_query;

verus! {

/// The events of `log` that satisfy `q`, in log order.
pub open spec fn matching_events(log: Seq<Event>, q: EventQuery) -> Seq<Event>
    decreases log.len(),
{
    if log.len() == 0 {
        Seq::empty()
    } else {
        let rest = matching_events(log.drop_last(), q);
        if event_matches(q, log.last()) {
            rest.push(log.last())
        } else {
            rest
        }
    }
}

/// A result list truncated to a query's limit, when one is given.
pub open spec fn capped(s: Seq<Event>, limit: Option<usize>) -> Seq<Event> {
    match limit {
        Some(l) => if s.len() <= l {
            s
        } else {
            s.take(l as int)
        },
        None => s,
    }
}

/// What a query over a stored log returns: the matching events in store
/// order, truncated to the query's limit.
pub open spec fn query_results(log: Seq<Event>, q: EventQuery) -> Seq<Event> {
    capped(matching_events(log, q), q.limit)
}

/// Persistence and query sink for processed events. Durable retention is
/// entirely this capability's responsibility; the pipeline discards events
/// after handing them over.
pub trait EventStorage {
    /// The events this sink has durably accepted, in store order.
    spec fn log(&self) -> Seq<Event>;

    /// Store one event: on success it is appended to the log; on failure the
    /// log is unchanged.
    fn store(&mut self, event: &Event) -> (r: Result<(), EventError>)
        ensures
            r is Ok ==> final(self).log() == old(self).log().push(*event),
            r is Err ==> final(self).log() == old(self).log(),
    ;

    /// Query events: side-effect-free, and on success the result is exactly
    /// the stored events matching the query, in store order, capped at the
    /// query's limit.
    fn query(&self, query: &EventQuery) -> (r: Result<Vec<Event>, EventError>)
        ensures
            r matches Ok(v) ==> v@ == query_results(self.log(), *query),
    ;
}

/// `a` occurs inside `b` in order (not necessarily contiguously).
pub open spec fn subsequence_of(a: Seq<Event>, b: Seq<Event>) -> bool
    decreases a.len() + b.len(),
{
    if a.len() == 0 {
        true
    } else if b.len() == 0 {
        false
    } else if a.last() == b.last() {
        subsequence_of(a.drop_last(), b.drop_last()) || subsequence_of(a, b.drop_last())
    } else {
        subsequence_of(a, b.drop_last())
    }
}

pub proof fn lemma_subsequence_push_both(a: Seq<Event>, b: Seq<Event>, x: Event)
    requires
        subsequence_of(a, b),
    ensures
        subsequence_of(a.push(x), b.push(x)),
{
    assert(a.push(x).drop_last() =~= a);
    assert(b.push(x).drop_last() =~= b);
}

pub proof fn lemma_subsequence_push_right(a: Seq<Event>, b: Seq<Event>, x: Event)
    requires
        subsequence_of(a, b),
    ensures
        subsequence_of(a, b.push(x)),
{
    assert(b.push(x).drop_last() =~= b);
}

pub proof fn lemma_subsequence_len(a: Seq<Event>, b: Seq<Event>)
    requires
        subsequence_of(a, b),
    ensures
        a.len() <= b.len(),
    decreases a.len() + b.len(),
{
    if a.len() > 0 && b.len() > 0 {
        if a.last() == b.last() {
            if subsequence_of(a.drop_last(), b.drop_last()) {
                lemma_subsequence_len(a.drop_last(), b.drop_last());
            } else {
                lemma_subsequence_len(a, b.drop_last());
            }
        } else {
            lemma_subsequence_len(a, b.drop_last());
        }
    }
}

/// A subsequence of equal length is the whole sequence.
pub proof fn lemma_subsequence_same_len(a: Seq<Event>, b: Seq<Event>)
    requires
        subsequence_of(a, b),
        a.len() == b.len(),
    ensures
        a == b,
    decreases a.len(),
{
    if a.len() > 0 {
        if a.last() == b.last() {
            if subsequence_of(a.drop_last(), b.drop_last()) {
                lemma_subsequence_same_len(a.drop_last(), b.drop_last());
                assert forall|i: int| 0 <= i < a.len() implies a[i] == b[i] by {
                    if i < a.len() - 1 {
                        assert(a.drop_last()[i] == b.drop_last()[i]);
                    } else {
                        assert(a[i] == a.last());
                        assert(b[i] == b.last());
                    }
                }
                assert(a =~= b);
            } else {
                lemma_subsequence_len(a, b.drop_last());
                assert(false);
            }
        } else {
            lemma_subsequence_len(a, b.drop_last());
            assert(false);
        }
    } else {
        assert(a =~= b);
    }
}

pub proof fn lemma_subsequence_extend(a: Seq<Event>, b: Seq<Event>, ext: Seq<Event>)
    requires
        subsequence_of(a, b),
    ensures
        subsequence_of(a, b + ext),
    decreases ext.len(),
{
    if ext.len() == 0 {
        assert(b + ext =~= b);
    } else {
        lemma_subsequence_extend(a, b, ext.drop_last());
        assert(b + ext =~= (b + ext.drop_last()).push(ext.last()));
        lemma_subsequence_push_right(a, b + ext.drop_last(), ext.last());
    }
}

/// Subsequences compose under concatenation.
pub proof fn lemma_subsequence_concat(a1: Seq<Event>, b1: Seq<Event>, a2: Seq<Event>, b2: Seq<Event>)
    requires
        subsequence_of(a1, b1),
        subsequence_of(a2, b2),
    ensures
        subsequence_of(a1 + a2, b1 + b2),
    decreases a2.len() + b2.len(),
{
    if a2.len() == 0 {
        assert(a1 + a2 =~= a1);
        lemma_subsequence_extend(a1, b1, b2);
    } else if b2.len() == 0 {
        assert(false);
    } else if a2.last() == b2.last() && subsequence_of(a2.drop_last(), b2.drop_last()) {
        lemma_subsequence_concat(a1, b1, a2.drop_last(), b2.drop_last());
        assert(a1 + a2 =~= (a1 + a2.drop_last()).push(a2.last()));
        assert(b1 + b2 =~= (b1 + b2.drop_last()).push(b2.last()));
        lemma_subsequence_push_both(a1 + a2.drop_last(), b1 + b2.drop_last(), a2.last());
    } else {
        lemma_subsequence_concat(a1, b1, a2, b2.drop_last());
        assert(b1 + b2 =~= (b1 + b2.drop_last()).push(b2.last()));
        lemma_subsequence_push_right(a1 + a2, b1 + b2.drop_last(), b2.last());
    }
}

pub proof fn lemma_prefix_refl<T>(a: Seq<T>)
    ensures
        a.is_prefix_of(a),
{
    assert(a.subrange(0, a.len() as int) =~= a);
}

/// A sequence is a prefix of itself extended by one element.
pub proof fn lemma_prefix_push<T>(a: Seq<T>, x: T)
    ensures
        a.is_prefix_of(a.push(x)),
{
    assert(a.push(x).subrange(0, a.len() as int) =~= a);
}

pub proof fn lemma_prefix_trans<T>(a: Seq<T>, b: Seq<T>, c: Seq<T>)
    requires
        a.is_prefix_of(b),
        b.is_prefix_of(c),
    ensures
        a.is_prefix_of(c),
{
    assert(c.subrange(0, a.len() as int) =~= a);
}

/// Flush one batch to storage, one event at a time. A failing store is
/// recorded in the returned error list and does not abort the remaining
/// events: there is no atomic batch guarantee. Whatever happens, the log
/// grows by exactly the events that were accepted, in batch order, and when
/// nothing failed the whole batch was appended.
pub fn store_batch<S: EventStorage>(storage: &mut S, batch: &Vec<Event>) -> (errors: Vec<
    EventError,
>)
    ensures
        exists|stored: Seq<Event>|
            {
                &&& final(storage).log() == old(storage).log() + stored
                &&& #[trigger] subsequence_of(stored, batch@)
                &&& stored.len() + errors@.len() == batch@.len()
            },
        errors@.len() == 0 ==> final(storage).log() == old(storage).log() + batch@,
{
    let ghost old_log = storage.log();
    let ghost mut stored: Seq<Event> = Seq::empty();
    let mut errors: Vec<EventError> = Vec::new();
    let mut i: usize = 0;
    proof {
        assert(old_log + stored =~= old_log);
        assert(batch@.take(0) =~= Seq::<Event>::empty());
    }
    while i < batch.len()
        invariant
            0 <= i <= batch@.len(),
            storage.log() == old_log + stored,
            subsequence_of(stored, batch@.take(i as int)),
            stored.len() + errors@.len() == i,
            errors@.len() == 0 ==> stored == batch@.take(i as int),
        decreases batch@.len() - i,
    {
        proof {
            assert(batch@.take(i as int + 1) =~= batch@.take(i as int).push(batch@[i as int]));
        }
        match storage.store(&batch[i]) {
            Ok(()) => {
                proof {
                    lemma_subsequence_push_both(stored, batch@.take(i as int), batch@[i as int]);
                    assert((old_log + stored).push(batch@[i as int]) =~= old_log + stored.push(
                        batch@[i as int],
                    ));
                    stored = stored.push(batch@[i as int]);
                }
            },
            Err(e) => {
                proof {
                    lemma_subsequence_push_right(stored, batch@.take(i as int), batch@[i as int]);
                }
                errors.push(e);
            },
        }
        i += 1;
    }
    proof {
        assert(batch@.take(batch@.len() as int) =~= batch@);
    }
    errors
}

/// In-memory storage: keeps every stored event in order and never fails.
pub struct MemStorage {
    events: Vec<Event>,
}

impl MemStorage {
    pub fn new() -> (s: MemStorage)
        ensures
            s.log() == Seq::<Event>::empty(),
    {
        MemStorage { events: Vec::new() }
    }
}

impl EventStorage for MemStorage {
    closed spec fn log(&self) -> Seq<Event> {
        self.events@
    }

    fn store(&mut self, event: &Event) -> (r: Result<(), EventError>)
        ensures
            r is Ok,
            final(self).log() == old(self).log().push(*event),
    {
        self.events.push(event.clone());
        Ok(())
    }

    fn query(&self, query: &EventQuery) -> (r: Result<Vec<Event>, EventError>)
        ensures
            r is Ok,
    {
        let mut out: Vec<Event> = Vec::new();
        let ghost mut matched: Seq<Event> = Seq::empty();
        let mut i: usize = 0;
        proof {
            assert(self.events@.take(0) =~= Seq::<Event>::empty());
        }
        while i < self.events.len()
            invariant
                0 <= i <= self.events@.len(),
                matched == matching_events(self.events@.take(i as int), *query),
                out@ == capped(matched, query.limit),
            decreases self.events@.len() - i,
        {
            proof {
                assert(self.events@.take(i as int + 1).drop_last() =~= self.events@.take(i as int));
            }
            let is_match = event_matches_query(query, &self.events[i]);
            let within = match query.limit {
                Some(l) => out.len() < l,
                None => true,
            };
            if is_match {
                proof {
                    matched = matched.push(self.events@[i as int]);
                }
                if within {
                    out.push(self.events[i].clone());
                } else {
                    proof {
                        let l = query.limit->Some_0 as int;
                        assert(matched.drop_last() =~= matched.take(matched.len() - 1));
                        assert(matched.take(l) =~= matched.drop_last().take(l));
                    }
                }
            }
            i += 1;
        }
        proof {
            assert(self.events@.take(self.events@.len() as int) =~= self.events@);
        }
        Ok(out)
    }
}

/// A storage sink that rejects every write: for exercising the pipeline's
/// availability-over-completeness paths. Its log never grows and queries
/// always answer with what it holds — nothing.
pub struct RejectingStorage {}

impl RejectingStorage {
    pub fn new() -> (s: RejectingStorage)
        ensures
            s.log() == Seq::<Event>::empty(),
    {
        RejectingStorage {  }
    }
}

impl EventStorage for RejectingStorage {
    closed spec fn log(&self) -> Seq<Event> {
        Seq::empty()
    }

    fn store(&mut self, event: &Event) -> (r: Result<(), EventError>)
        ensures
            r is Err,
            final(self).log() == old(self).log(),
    {
        Err(EventError::StorageError("write rejected".to_owned()))
    }

    fn query(&self, query: &EventQuery) -> (r: Result<Vec<Event>, EventError>)
        ensures
            r is Ok,
    {
        proof {
            assert(query_results(self.log(), *query) =~= Seq::<Event>::empty());
        }
        Ok(Vec::new())
    }
}

} // verus!
