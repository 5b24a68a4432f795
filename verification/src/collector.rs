//! The collector capability (an external producer of events, lifecycle only)
//! and the pipeline's orchestration of a set of collectors: started in
//! declaration order with fail-fast — collectors already started before a
//! failure stay running — and stopped in declaration order with
//! continue-on-error.

use vstd::prelude::*;

use crate::event::EventError;

verus! {

/// External producer of events. Lifecycle only: `start` then `stop`, each
/// once per lifecycle.
pub trait EventCollector {
    /// Whether the collector is currently producing events.
    spec fn is_running(&self) -> bool;

    /// Start collecting. On success the collector runs; one that failed to
    /// start is not running.
    fn start(&mut self) -> (r: Result<(), EventError>)
        requires
            !old(self).is_running(),
        ensures
            r is Ok ==> final(self).is_running(),
            r is Err ==> !final(self).is_running(),
    ;

    /// Stop collecting. On success the collector no longer runs.
    fn stop(&mut self) -> (r: Result<(), EventError>)
        requires
            old(self).is_running(),
        ensures
            r is Ok ==> !final(self).is_running(),
    ;

    /// Name of the collector for identification.
    fn name(&self) -> (r: &str);
}

/// How many of the collectors are currently running.
pub open spec fn running_count<C: EventCollector>(s: Seq<C>) -> int
    decreases s.len(),
{
    if s.len() == 0 {
        0
    } else {
        running_count(s.drop_last()) + if s.last().is_running() {
            1int
        } else {
            0int
        }
    }
}

pub proof fn lemma_running_count_bounds<C: EventCollector>(s: Seq<C>)
    ensures
        0 <= running_count(s) <= s.len(),
    decreases s.len(),
{
    if s.len() > 0 {
        lemma_running_count_bounds(s.drop_last());
    }
}

/// When none of the collectors counts as running, none is running.
pub proof fn lemma_running_count_zero<C: EventCollector>(s: Seq<C>)
    requires
        running_count(s) == 0,
    ensures
        forall|i: int| 0 <= i < s.len() ==> !(#[trigger] s[i]).is_running(),
    decreases s.len(),
{
    if s.len() > 0 {
        lemma_running_count_bounds(s.drop_last());
        lemma_running_count_zero(s.drop_last());
        assert forall|i: int| 0 <= i < s.len() implies !(#[trigger] s[i]).is_running() by {
            if i < s.len() - 1 {
                assert(s[i] == s.drop_last()[i]);
            }
        }
    }
}

/// Start every collector in declaration order, fail-fast: the first failure
/// is returned at once, collectors already started are left running (they are
/// not rolled back), and collectors after the failed one are not touched.
pub fn start_all<C: EventCollector>(collectors: &mut Vec<C>) -> (r: Result<(), EventError>)
    requires
        forall|i: int|
            0 <= i < old(collectors)@.len() ==> !(#[trigger] old(collectors)@[i]).is_running(),
    ensures
        final(collectors)@.len() == old(collectors)@.len(),
        r is Ok ==> forall|i: int|
            0 <= i < final(collectors)@.len()
                ==> (#[trigger] final(collectors)@[i]).is_running(),
        r is Err ==> exists|k: int|
            {
                &&& 0 <= k < final(collectors)@.len()
                &&& !(#[trigger] final(collectors)@[k]).is_running()
                &&& forall|i: int|
                    0 <= i < final(collectors)@.len()
                        ==> ((#[trigger] final(collectors)@[i]).is_running() <==> i < k)
                &&& forall|i: int|
                    k < i < final(collectors)@.len() ==> final(collectors)@[i] == old(
                        collectors,
                    )@[i]
            },
{
    let n = collectors.len();
    let mut i: usize = 0;
    while i < n
        invariant
            0 <= i <= n,
            collectors@.len() == n,
            old(collectors)@.len() == n,
            forall|j: int| 0 <= j < i ==> (#[trigger] collectors@[j]).is_running(),
            forall|j: int| i <= j < n ==> collectors@[j] == old(collectors)@[j],
            forall|j: int| 0 <= j < n ==> !(#[trigger] old(collectors)@[j]).is_running(),
        decreases n - i,
    {
        let c = &mut collectors[i];
        let r = c.start();
        match r {
            Ok(()) => {},
            Err(e) => {
                return Err(e);
            },
        }
        i += 1;
    }
    Ok(())
}

/// Stop every collector in declaration order, continue-on-error: a failure
/// stopping one collector is recorded and does not prevent attempting to stop
/// the rest. Returns the failures for the caller's observability sink; when
/// none occurred, every collector has stopped.
pub fn stop_all<C: EventCollector>(collectors: &mut Vec<C>) -> (errors: Vec<EventError>)
    requires
        forall|i: int|
            0 <= i < old(collectors)@.len() ==> (#[trigger] old(collectors)@[i]).is_running(),
    ensures
        final(collectors)@.len() == old(collectors)@.len(),
        errors@.len() <= final(collectors)@.len(),
        running_count(final(collectors)@) <= errors@.len(),
        errors@.len() == 0 ==> forall|i: int|
            0 <= i < final(collectors)@.len()
                ==> !(#[trigger] final(collectors)@[i]).is_running(),
{
    let n = collectors.len();
    let mut errors: Vec<EventError> = Vec::new();
    let mut i: usize = 0;
    while i < n
        invariant
            0 <= i <= n,
            collectors@.len() == n,
            old(collectors)@.len() == n,
            errors@.len() <= i,
            running_count(collectors@.take(i as int)) <= errors@.len(),
            errors@.len() == 0 ==> forall|j: int|
                0 <= j < i ==> !(#[trigger] collectors@[j]).is_running(),
            forall|j: int| i <= j < n ==> collectors@[j] == old(collectors)@[j],
            forall|j: int| 0 <= j < n ==> (#[trigger] old(collectors)@[j]).is_running(),
        decreases n - i,
    {
        let ghost pre = collectors@;
        let c = &mut collectors[i];
        let r = c.stop();
        proof {
            assert(collectors@.take(i as int) =~= pre.take(i as int));
            assert(collectors@.take(i as int + 1).drop_last() =~= collectors@.take(i as int));
            assert(collectors@.take(i as int + 1).last() == collectors@[i as int]);
        }
        match r {
            Ok(()) => {},
            Err(e) => {
                errors.push(e);
            },
        }
        i += 1;
    }
    proof {
        assert(collectors@.take(n as int) =~= collectors@);
    }
    errors
}

/// A collector driven by hand: it produces nothing on its own and can be set
/// up to fail its lifecycle calls, for exercising the orchestration paths.
pub struct ManualCollector {
    pub label: String,
    pub running: bool,
    pub fail_start: bool,
    pub fail_stop: bool,
}

impl ManualCollector {
    pub fn new(label: String, fail_start: bool, fail_stop: bool) -> (c: ManualCollector)
        ensures
            !c.is_running(),
            c.fail_start == fail_start,
            c.fail_stop == fail_stop,
    {
        ManualCollector { label, running: false, fail_start, fail_stop }
    }
}

impl EventCollector for ManualCollector {
    open spec fn is_running(&self) -> bool {
        self.running
    }

    fn start(&mut self) -> (r: Result<(), EventError>) {
        if self.fail_start {
            Err(EventError::CollectionError("failed to start".to_owned()))
        } else {
            self.running = true;
            Ok(())
        }
    }

    fn stop(&mut self) -> (r: Result<(), EventError>) {
        if self.fail_stop {
            Err(EventError::CollectionError("failed to stop".to_owned()))
        } else {
            self.running = false;
            Ok(())
        }
    }

    fn name(&self) -> (r: &str) {
        self.label.as_str()
    }
}

} // verus!
