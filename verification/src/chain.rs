//! The processor chain: each worker passes its copy of an event through
//! processors in a fixed order. A processor either transforms the event
//! (the chain continues with the new value), drops it (nothing later in the
//! chain runs, and the event is discarded for this worker), or fails (the
//! failure is counted and the chain continues with the event as it stood
//! before that processor ran — a deliberate availability-over-completeness
//! policy).

use vstd::prelude::*;

use crate::event::Event;
use crate::event::EventError;

verus! {

/// A transform/filter stage. Implementations should be stateless or
/// internally synchronized: the behaviour is a function of the event alone.
pub trait EventProcessor {
    /// The processor's behaviour: what `process` returns for a given event.
    spec fn outcome(&self, event: Event) -> Result<Option<Event>, EventError>;

    /// Process one event: `Ok(Some(_))` is the transformed event,
    /// `Ok(None)` drops the event for this worker, `Err(_)` reports an
    /// internal failure.
    fn process(&self, event: &Event) -> (r: Result<Option<Event>, EventError>)
        ensures
            r == self.outcome(*event),
    ;

    /// Name of the processor for identification.
    fn name(&self) -> (r: &str);
}

/// What the whole chain yields for one event: the final transformed event,
/// or `None` when some processor along the way dropped it. A failing
/// processor is a no-op: the chain continues with the value it had before.
pub open spec fn chain_result<P: EventProcessor>(procs: Seq<P>, event: Event) -> Option<Event>
    decreases procs.len(),
{
    if procs.len() == 0 {
        Some(event)
    } else {
        match procs[0].outcome(event) {
            Ok(Some(e2)) => chain_result(procs.skip(1), e2),
            Ok(None) => None,
            Err(_) => chain_result(procs.skip(1), event),
        }
    }
}

/// How many processors fail along the chain's actual path for one event.
pub open spec fn chain_failures<P: EventProcessor>(procs: Seq<P>, event: Event) -> nat
    decreases procs.len(),
{
    if procs.len() == 0 {
        0
    } else {
        match procs[0].outcome(event) {
            Ok(Some(e2)) => chain_failures(procs.skip(1), e2),
            Ok(None) => 0,
            Err(_) => 1 + chain_failures(procs.skip(1), event),
        }
    }
}

/// Run the chain on one event. Returns the chain's result and the number of
/// processor failures that were swallowed along the way (for the caller's
/// observability sink).
pub fn run_chain<P: EventProcessor>(processors: &Vec<P>, event: Event) -> (r: (
    Option<Event>,
    usize,
))
    ensures
        r.0 == chain_result(processors@, event),
        r.1 == chain_failures(processors@, event),
{
    let ghost orig = event;
    let mut current = event;
    let mut failures: usize = 0;
    let mut i: usize = 0;
    proof {
        assert(processors@.skip(0) =~= processors@);
    }
    while i < processors.len()
        invariant
            orig == event,
            0 <= i <= processors@.len(),
            failures <= i,
            chain_result(processors@, orig) == chain_result(processors@.skip(i as int), current),
            chain_failures(processors@, orig) == failures + chain_failures(
                processors@.skip(i as int),
                current,
            ),
        decreases processors@.len() - i,
    {
        proof {
            assert(processors@.skip(i as int).skip(1) =~= processors@.skip(i as int + 1));
            assert(processors@.skip(i as int)[0] == processors@[i as int]);
        }
        let res = processors[i].process(&current);
        match res {
            Ok(Some(next)) => {
                current = next;
            },
            Ok(None) => {
                proof {
                    assert(chain_result(processors@.skip(i as int), current) is None);
                    assert(chain_failures(processors@.skip(i as int), current) == 0);
                }
                return (None, failures);
            },
            Err(_) => {
                failures = failures + 1;
            },
        }
        i += 1;
    }
    proof {
        assert(processors@.skip(i as int).len() == 0);
        assert(chain_result(processors@.skip(i as int), current) == Some(current));
        assert(chain_failures(processors@.skip(i as int), current) == 0);
    }
    (Some(current), failures)
}

/// What survives the chain out of a sequence of delivered events: each
/// delivered event's chain result, in delivery order, keeping only the events
/// that were not dropped.
pub open spec fn chain_somes<P: EventProcessor>(procs: Seq<P>, delivered: Seq<Event>) -> Seq<
    Event,
>
    decreases delivered.len(),
{
    if delivered.len() == 0 {
        Seq::empty()
    } else {
        let rest = chain_somes(procs, delivered.drop_last());
        match chain_result(procs, delivered.last()) {
            Some(e2) => rest.push(e2),
            None => rest,
        }
    }
}

/// One decision step for a caller that drives external processors itself
/// (an asynchronous chain, for example): given the value the chain held
/// before a processor ran and that processor's outcome, the chain either
/// continues with a value or halts with the event discarded.
#[derive(Debug)]
pub enum ChainStep {
    Continue(Event),
    Halted,
}

pub fn chain_step(current: Event, outcome: Result<Option<Event>, EventError>) -> (r: ChainStep)
    ensures
        outcome matches Ok(Some(e2)) ==> r == ChainStep::Continue(e2),
        outcome matches Ok(None) ==> r == ChainStep::Halted,
        outcome matches Err(_) ==> r == ChainStep::Continue(current),
{
    match outcome {
        Ok(Some(e2)) => ChainStep::Continue(e2),
        Ok(None) => ChainStep::Halted,
        Err(_) => ChainStep::Continue(current),
    }
}

/// Once a processor drops an event, the chain yields nothing for it: no
/// later processor observes it, and the caller has nothing to batch, store
/// or republish.
pub proof fn lemma_drop_halts_chain<P: EventProcessor>(procs: Seq<P>, e: Event)
    requires
        procs.len() > 0,
        procs[0].outcome(e) matches Ok(None),
    ensures
        chain_result(procs, e) is None,
{
}

/// In a two-stage chain whose first processor maps `e` to `e2`, the rest of
/// the chain runs on `e2` and never observes `e`.
pub proof fn lemma_second_stage_sees_transformed<P: EventProcessor>(
    procs: Seq<P>,
    e: Event,
    e2: Event,
)
    requires
        procs.len() == 2,
        procs[0].outcome(e) matches Ok(x) && x == Some(e2),
    ensures
        chain_result(procs, e) == chain_result(seq![procs[1]], e2),
{
    assert(procs.skip(1) =~= seq![procs[1]]);
}

/// Ready-made processor stages, in one type so that a chain can mix stages
/// of different kinds.
pub enum BuiltinProcessor {
    /// Passes every event through unchanged.
    Noop,
    /// Drops every event whose type equals the tag; passes the rest through.
    DropType(String),
    /// Rewrites every event's type to the tag, leaving the rest as it was.
    Retag(String),
    /// Fails on every event with a fixed message; the chain treats the
    /// failure as a no-op and continues with the event unchanged.
    Fail(String),
}

impl EventProcessor for BuiltinProcessor {
    open spec fn outcome(&self, event: Event) -> Result<Option<Event>, EventError> {
        match self {
            BuiltinProcessor::Noop => Ok(Some(event)),
            BuiltinProcessor::DropType(t) => if event.event_type@ == t@ {
                Ok(None)
            } else {
                Ok(Some(event))
            },
            BuiltinProcessor::Retag(t) => Ok(Some(Event { event_type: *t, ..event })),
            BuiltinProcessor::Fail(m) => Err(EventError::ProcessingError(*m)),
        }
    }

    fn process(&self, event: &Event) -> (r: Result<Option<Event>, EventError>) {
        match self {
            BuiltinProcessor::Noop => Ok(Some(event.clone())),
            BuiltinProcessor::DropType(t) => if event.event_type == *t {
                Ok(None)
            } else {
                Ok(Some(event.clone()))
            },
            BuiltinProcessor::Retag(t) => Ok(
                Some(
                    Event {
                        id: event.id.clone(),
                        timestamp: event.timestamp,
                        event_type: t.clone(),
                        process: event.process.clone(),
                        data: event.data.clone(),
                    },
                ),
            ),
            BuiltinProcessor::Fail(m) => Err(EventError::ProcessingError(m.clone())),
        }
    }

    fn name(&self) -> (r: &str) {
        match self {
            BuiltinProcessor::Noop => "noop",
            BuiltinProcessor::DropType(_) => "type_filter",
            BuiltinProcessor::Retag(_) => "retag",
            BuiltinProcessor::Fail(_) => "failing",
        }
    }
}

} // verus!
