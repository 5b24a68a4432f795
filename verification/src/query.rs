//! Query matching: which events satisfy an `EventQuery`, and what an
//! in-order, limit-truncated result of a query over a stored log looks like.
//! The pipeline itself never interprets queries; this is the storage side's
//! reference semantics.

use vstd::prelude::*;

use crate::event::Event;
use crate::event::EventQuery;

verus! {

/// The event's timestamp lies in the query's (inclusive) time range.
pub open spec fn time_in_range(q: EventQuery, e: Event) -> bool {
    &&& (q.start_time matches Some(s) ==> s <= e.timestamp)
    &&& (q.end_time matches Some(t) ==> e.timestamp <= t)
}

/// The tag `t` occurs in the list of wanted event types.
pub open spec fn type_set_contains(types: Seq<String>, t: Seq<char>) -> bool {
    exists|i: int| 0 <= i < types.len() && types[i]@ == t
}

/// The event's type passes the query's event-type set, if one is given.
pub open spec fn type_in_set(q: EventQuery, e: Event) -> bool {
    q.event_types matches Some(ts) ==> type_set_contains(ts@, e.event_type@)
}

/// The event's process snapshot passes the query's process filter, if one is
/// given: each field of the filter that is present must match exactly.
pub open spec fn process_passes(q: EventQuery, e: Event) -> bool {
    q.process_filter matches Some(f) ==> {
        &&& (f.pid matches Some(p) ==> e.process.pid == p)
        &&& (f.comm matches Some(c) ==> e.process.comm@ == c@)
        &&& (f.uid matches Some(u) ==> e.process.uid == u)
    }
}

/// An event satisfies a query when it passes the time range, the event-type
/// set and the process filter together.
pub open spec fn event_matches(q: EventQuery, e: Event) -> bool {
    time_in_range(q, e) && type_in_set(q, e) && process_passes(q, e)
}

/// Whether `t` occurs in `types`.
pub fn type_list_contains(types: &Vec<String>, t: &String) -> (r: bool)
    ensures
        r == type_set_contains(types@, t@),
{
    let mut i: usize = 0;
    while i < types.len()
        invariant
            0 <= i <= types@.len(),
            forall|j: int| 0 <= j < i ==> types@[j]@ != t@,
        decreases types@.len() - i,
    {
        if types[i] == *t {
            return true;
        }
        i += 1;
    }
    false
}

/// Whether one event satisfies one query.
pub fn event_matches_query(q: &EventQuery, e: &Event) -> (r: bool)
    ensures
        r == event_matches(*q, *e),
{
    let time_ok = (match q.start_time {
        Some(s) => s <= e.timestamp,
        None => true,
    }) && (match q.end_time {
        Some(t) => e.timestamp <= t,
        None => true,
    });

    let type_ok = match &q.event_types {
        Some(ts) => type_list_contains(ts, &e.event_type),
        None => true,
    };

    let process_ok = match &q.process_filter {
        Some(f) => {
            (match f.pid {
                Some(p) => e.process.pid == p,
                None => true,
            }) && (match &f.comm {
                Some(c) => e.process.comm == *c,
                None => true,
            }) && (match f.uid {
                Some(u) => e.process.uid == u,
                None => true,
            })
        },
        None => true,
    };

    time_ok && type_ok && process_ok
}

} // verus!
