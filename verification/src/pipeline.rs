//! The pipeline orchestrator: collectors feed an ingress bus; a fixed number
//! of worker subscriptions each runs the full processor chain over every
//! event it receives, batches the survivors, flushes batches to storage, and
//! republishes each survivor on a separate output bus for external live
//! subscribers. Two distinct buses keep processed output from re-entering the
//! processor chain. Failures in steady state are recorded in an observability
//! sink and never stop a worker.

use vstd::prelude::*;

use crate::batch::WorkerBatch;
use crate::bus::Bus;
use crate::bus::BusSubscription;
use crate::bus::RecvOutcome;
use crate::chain::chain_failures;
use crate::chain::chain_result;
use crate::chain::chain_somes;
use crate::chain::run_chain;
use crate::chain::EventProcessor;
use crate::collector::lemma_running_count_bounds;
use crate::collector::lemma_running_count_zero;
use crate::collector::running_count;
use crate::collector::start_all;
use crate::collector::stop_all;
use crate::collector::EventCollector;
use crate::event::Event;
use crate::event::EventConfig;
use crate::event::EventError;
use crate::event::EventQuery;
use crate::storage::lemma_prefix_push;
use crate::storage::lemma_prefix_refl;
use crate::storage::lemma_prefix_trans;
use crate::storage::lemma_subsequence_concat;
use crate::storage::query_results;
use crate::storage::store_batch;
use crate::storage::subsequence_of;
use crate::storage::EventStorage;

verus! {

/// A record emitted to the pipeline's observability sink. Steady-state
/// failures are recorded here and swallowed: losing some telemetry is
/// preferable to halting observation.
#[derive(Debug)]
pub enum Notice {
    /// A worker fell behind the ingress bus and lost this many events.
    WorkerLagged(usize),
    /// This many processors failed (each treated as a no-op) while one event
    /// ran through the chain.
    ProcessorFailures(usize),
    /// This many storage writes failed during one batch flush.
    StoreFailures(usize),
    /// This many collectors reported a failure while being stopped.
    StopFailures(usize),
}

/// Where the pipeline stands in its lifecycle.
#[derive(Debug, PartialEq, Eq)]
pub enum Phase {
    /// Constructed; collectors not yet started, no workers.
    Created,
    /// Collectors started, workers subscribed and processing.
    Running,
    /// Shut down (or failed to start); terminal.
    Stopped,
}

/// Total number of failed storage writes recorded in the sink so far.
pub open spec fn store_failure_sum(notices: Seq<Notice>) -> int
    decreases notices.len(),
{
    if notices.len() == 0 {
        0
    } else {
        store_failure_sum(notices.drop_last()) + match notices.last() {
            Notice::StoreFailures(f) => f as int,
            _ => 0int,
        }
    }
}

/// Total number of failed collector stops recorded in the sink so far.
pub open spec fn stop_failure_sum(notices: Seq<Notice>) -> int
    decreases notices.len(),
{
    if notices.len() == 0 {
        0
    } else {
        stop_failure_sum(notices.drop_last()) + match notices.last() {
            Notice::StopFailures(c) => c as int,
            _ => 0int,
        }
    }
}

pub proof fn lemma_store_failure_sum_push(notices: Seq<Notice>, x: Notice)
    ensures
        store_failure_sum(notices.push(x)) == store_failure_sum(notices) + (match x {
            Notice::StoreFailures(f) => f as int,
            _ => 0int,
        }),
{
    assert(notices.push(x).drop_last() =~= notices);
}

pub proof fn lemma_stop_failure_sum_push(notices: Seq<Notice>, x: Notice)
    ensures
        stop_failure_sum(notices.push(x)) == stop_failure_sum(notices) + (match x {
            Notice::StopFailures(c) => c as int,
            _ => 0int,
        }),
{
    assert(notices.push(x).drop_last() =~= notices);
}

/// Storage-accounting deltas compose: if the log grew by an in-order
/// subsequence of each of two consecutive hand-over stretches, accounted for
/// by the recorded store failures, the same holds of the combined stretch.
pub proof fn lemma_accounting_compose(
    stored0: Seq<Event>,
    stored1: Seq<Event>,
    stored2: Seq<Event>,
    handed0: Seq<Event>,
    handed1: Seq<Event>,
    handed2: Seq<Event>,
    sf0: int,
    sf1: int,
    sf2: int,
)
    requires
        handed0.is_prefix_of(handed1),
        handed1.is_prefix_of(handed2),
        exists|s: Seq<Event>|
            {
                &&& stored1 == stored0 + s
                &&& #[trigger] subsequence_of(s, handed1.skip(handed0.len() as int))
                &&& s.len() + sf1 - sf0 == handed1.len() - handed0.len()
            },
        exists|s: Seq<Event>|
            {
                &&& stored2 == stored1 + s
                &&& #[trigger] subsequence_of(s, handed2.skip(handed1.len() as int))
                &&& s.len() + sf2 - sf1 == handed2.len() - handed1.len()
            },
    ensures
        exists|s: Seq<Event>|
            {
                &&& stored2 == stored0 + s
                &&& #[trigger] subsequence_of(s, handed2.skip(handed0.len() as int))
                &&& s.len() + sf2 - sf0 == handed2.len() - handed0.len()
            },
{
    let s1 = choose|s: Seq<Event>|
        {
            &&& stored1 == stored0 + s
            &&& #[trigger] subsequence_of(s, handed1.skip(handed0.len() as int))
            &&& s.len() + sf1 - sf0 == handed1.len() - handed0.len()
        };
    let s2 = choose|s: Seq<Event>|
        {
            &&& stored2 == stored1 + s
            &&& #[trigger] subsequence_of(s, handed2.skip(handed1.len() as int))
            &&& s.len() + sf2 - sf1 == handed2.len() - handed1.len()
        };
    lemma_subsequence_concat(
        s1,
        handed1.skip(handed0.len() as int),
        s2,
        handed2.skip(handed1.len() as int),
    );
    assert(handed1 =~= handed2.subrange(0, handed1.len() as int));
    assert(handed1.skip(handed0.len() as int) + handed2.skip(handed1.len() as int) =~= handed2.skip(
        handed0.len() as int,
    ));
    assert(stored2 =~= stored0 + (s1 + s2));
    assert(subsequence_of(s1 + s2, handed2.skip(handed0.len() as int)));
}

/// The ghost view of one worker: where its subscription stands in the ingress
/// history, what was actually delivered to it, and its batch bookkeeping.
pub ghost struct WorkerModel {
    /// Ingress history length when the worker subscribed.
    pub origin: int,
    /// Position of its next unread ingress event.
    pub cursor: int,
    /// Every event actually delivered to it, in order.
    pub delivered: Seq<Event>,
    /// Every chain survivor it accepted into its batch, in order.
    pub accepted: Seq<Event>,
    /// Accepted events not yet handed to storage.
    pub pending: Seq<Event>,
    /// Accepted events handed to storage so far.
    pub flushed: Seq<Event>,
}

struct Worker {
    sub: BusSubscription,
    batch: WorkerBatch,
    delivered: Ghost<Seq<Event>>,
}

/// The pipeline: configuration, collectors, processor chain, storage sink,
/// the two buses, the workers, and the observability sink.
pub struct EventPipeline<C: EventCollector, P: EventProcessor, S: EventStorage> {
    cfg: EventConfig,
    collectors: Vec<C>,
    processors: Vec<P>,
    storage: S,
    ingress: Bus,
    output: Bus,
    workers: Vec<Worker>,
    notices: Vec<Notice>,
    handed: Ghost<Seq<Event>>,
    phase: Phase,
}

impl<C: EventCollector, P: EventProcessor, S: EventStorage> EventPipeline<C, P, S> {
    /// The configuration fixed at construction.
    pub closed spec fn config(&self) -> EventConfig {
        self.cfg
    }

    /// The lifecycle phase.
    pub closed spec fn phase(&self) -> Phase {
        self.phase
    }

    pub open spec fn is_running(&self) -> bool {
        self.phase() is Running
    }

    /// The processor chain, in application order.
    pub closed spec fn chain(&self) -> Seq<P> {
        self.processors@
    }

    /// The collectors, in declaration order.
    pub closed spec fn collectors(&self) -> Seq<C> {
        self.collectors@
    }

    /// Every event ever published into the pipeline, in order.
    pub closed spec fn ingress_log(&self) -> Seq<Event> {
        self.ingress.log()
    }

    /// Every processed event ever republished for live subscribers, in order.
    pub closed spec fn output_log(&self) -> Seq<Event> {
        self.output.log()
    }

    /// The output bus still accepts republished events.
    pub closed spec fn output_open(&self) -> bool {
        !self.output.is_closed()
    }

    /// What the storage sink has accepted.
    pub closed spec fn stored(&self) -> Seq<Event> {
        self.storage.log()
    }

    /// Every record emitted to the observability sink so far, oldest first.
    pub closed spec fn notices_log(&self) -> Seq<Notice> {
        self.notices@
    }

    /// Every event ever handed to the storage sink, in hand-over order.
    pub closed spec fn handed(&self) -> Seq<Event> {
        self.handed@
    }

    /// Total length of the first `n` workers' flushed histories.
    pub closed spec fn flushed_total(&self, n: int) -> int
        decreases n,
    {
        if n <= 0 {
            0
        } else {
            self.flushed_total(n - 1) + self.worker_model(n - 1).flushed.len()
        }
    }

    pub proof fn lemma_flushed_total_congruent(a: Self, b: Self, n: int)
        requires
            forall|j: int| 0 <= j < n ==> a.worker_model(j) == b.worker_model(j),
        ensures
            a.flushed_total(n) == b.flushed_total(n),
        decreases n,
    {
        if n > 0 {
            Self::lemma_flushed_total_congruent(a, b, n - 1);
        }
    }

    pub proof fn lemma_flushed_total_change(a: Self, b: Self, v: int, n: int)
        requires
            0 <= v < n,
            forall|j: int| 0 <= j < n && j != v ==> a.worker_model(j) == b.worker_model(j),
        ensures
            b.flushed_total(n) - a.flushed_total(n) == b.worker_model(v).flushed.len()
                - a.worker_model(v).flushed.len(),
        decreases n,
    {
        if v == n - 1 {
            Self::lemma_flushed_total_congruent(a, b, n - 1);
        } else {
            Self::lemma_flushed_total_change(a, b, v, n - 1);
        }
    }

    pub closed spec fn worker_count(&self) -> int {
        self.workers@.len() as int
    }

    pub closed spec fn worker_model(&self, v: int) -> WorkerModel {
        let w = self.workers@[v];
        WorkerModel {
            origin: w.sub.origin(),
            cursor: w.sub.next_index(),
            delivered: w.delivered@,
            accepted: w.batch.accepted(),
            pending: w.batch.pending(),
            flushed: w.batch.flushed(),
        }
    }

    /// A subscription handed out by `subscribe` stays usable while it tracks
    /// the output history.
    pub open spec fn subscription_valid(&self, sub: BusSubscription) -> bool {
        0 <= sub.origin() <= sub.next_index() <= self.output_log().len()
    }

    /// Internal consistency: the buses carry the configured capacity, every
    /// worker's subscription sits inside the ingress history, every worker's
    /// batch is sound with the configured threshold, and what a worker has
    /// accepted is exactly what the chain let through of what was delivered
    /// to it.
    pub closed spec fn wf(&self) -> bool {
        &&& self.ingress.wf()
        &&& self.output.wf()
        &&& self.cfg.buffer_size >= 1
        &&& self.cfg.batch_size >= 1
        &&& self.ingress.cap() == self.cfg.buffer_size
        &&& self.output.cap() == self.cfg.buffer_size
        &&& forall|v: int|
            0 <= v < self.workers@.len() ==> (#[trigger] self.workers@[v]).sub.valid_for(
                &self.ingress,
            )
        &&& forall|v: int| 0 <= v < self.workers@.len() ==> (#[trigger] self.workers@[v]).batch.wf()
        &&& forall|v: int|
            0 <= v < self.workers@.len() ==> (#[trigger] self.workers@[v]).batch.threshold()
                == self.cfg.batch_size
        &&& forall|v: int|
            0 <= v < self.workers@.len() ==> (#[trigger] self.workers@[v]).batch.accepted()
                == chain_somes(self.processors@, self.workers@[v].delivered@)
        &&& (self.phase is Created ==> {
            &&& self.workers@.len() == 0
            &&& !self.ingress.is_closed()
            &&& !self.output.is_closed()
            &&& forall|i: int|
                0 <= i < self.collectors@.len() ==> !(#[trigger] self.collectors@[i]).is_running()
        })
        &&& (self.phase is Running ==> {
            &&& !self.ingress.is_closed()
            &&& !self.output.is_closed()
            &&& forall|i: int|
                0 <= i < self.collectors@.len() ==> (#[trigger] self.collectors@[i]).is_running()
        })
    }

    /// Build a pipeline. Nothing runs yet: collectors are started and workers
    /// subscribed by `start`. The capacity and batch threshold must be at
    /// least one (a zero-capacity bus cannot hold an event in flight).
    pub fn new(config: EventConfig, collectors: Vec<C>, processors: Vec<P>, storage: S) -> (p:
        Self)
        requires
            config.buffer_size >= 1,
            config.batch_size >= 1,
            forall|i: int| 0 <= i < collectors@.len() ==> !(#[trigger] collectors@[i]).is_running(),
        ensures
            p.wf(),
            p.phase() is Created,
            p.config() == config,
            p.chain() == processors@,
            p.collectors() == collectors@,
            p.ingress_log().len() == 0,
            p.output_log().len() == 0,
            p.stored() == storage.log(),
            p.worker_count() == 0,
            p.output_open(),
            p.notices_log() == Seq::<Notice>::empty(),
            p.handed() == Seq::<Event>::empty(),
    {
        let buffer_size = config.buffer_size;
        EventPipeline {
            cfg: config,
            collectors,
            processors,
            storage,
            ingress: Bus::new(buffer_size),
            output: Bus::new(buffer_size),
            workers: Vec::new(),
            notices: Vec::new(),
            handed: Ghost(Seq::empty()),
            phase: Phase::Created,
        }
    }

    /// Start the pipeline: start every collector in declaration order,
    /// fail-fast — on a failure the error is returned at once, collectors
    /// already started stay running, and no workers are spawned. On success,
    /// spawn exactly `processor_parallelism` workers, each with its own fresh,
    /// independent subscription to the ingress bus.
    pub fn start(&mut self) -> (r: Result<(), EventError>)
        requires
            old(self).wf(),
            old(self).phase() is Created,
        ensures
            final(self).wf(),
            final(self).config() == old(self).config(),
            final(self).chain() == old(self).chain(),
            final(self).ingress_log() == old(self).ingress_log(),
            final(self).output_log() == old(self).output_log(),
            final(self).stored() == old(self).stored(),
            final(self).output_open(),
            final(self).collectors().len() == old(self).collectors().len(),
            final(self).notices_log() == old(self).notices_log(),
            final(self).handed() == old(self).handed(),
            r is Ok ==> {
                &&& final(self).is_running()
                &&& final(self).worker_count() == old(self).config().processor_parallelism
                &&& forall|v: int|
                    0 <= v < final(self).worker_count() ==> (#[trigger] final(self).worker_model(v)) == (WorkerModel {
                        origin: final(self).ingress_log().len() as int,
                        cursor: final(self).ingress_log().len() as int,
                        delivered: Seq::<Event>::empty(),
                        accepted: Seq::<Event>::empty(),
                        pending: Seq::<Event>::empty(),
                        flushed: Seq::<Event>::empty(),
                    })
                &&& forall|i: int|
                    0 <= i < final(self).collectors().len() ==> (#[trigger] final(self).collectors()[i]).is_running()
            },
            r is Err ==> {
                &&& final(self).phase() is Stopped
                &&& final(self).worker_count() == 0
                &&& exists|k: int|
                    {
                        &&& 0 <= k < final(self).collectors().len()
                        &&& !(#[trigger] final(self).collectors()[k]).is_running()
                        &&& forall|i: int|
                            0 <= i < final(self).collectors().len() ==> ((#[trigger] final(self).collectors()[i]).is_running() <==> i < k)
                    }
            },
    {
        match start_all(&mut self.collectors) {
            Ok(()) => {},
            Err(e) => {
                self.phase = Phase::Stopped;
                proof {
                    let k = choose|k: int|
                        {
                            &&& 0 <= k < self.collectors@.len()
                            &&& !(#[trigger] self.collectors@[k]).is_running()
                            &&& forall|i: int|
                                0 <= i < self.collectors@.len() ==> ((
                                #[trigger] self.collectors@[i]).is_running() <==> i < k)
                        };
                    assert({
                        &&& 0 <= k < self.collectors().len()
                        &&& !(#[trigger] self.collectors()[k]).is_running()
                        &&& forall|i: int|
                            0 <= i < self.collectors().len() ==> ((
                            #[trigger] self.collectors()[i]).is_running() <==> i < k)
                    });
                }
                return Err(e);
            },
        }
        self.phase = Phase::Running;
        let n = self.cfg.processor_parallelism;
        let mut k: usize = 0;
        while k < n
            invariant
                self.wf(),
                self.phase() is Running,
                self.output_open(),
                self.config() == old(self).config(),
                self.chain() == old(self).chain(),
                self.ingress_log() == old(self).ingress_log(),
                self.output_log() == old(self).output_log(),
                self.stored() == old(self).stored(),
                self.collectors().len() == old(self).collectors().len(),
                self.notices_log() == old(self).notices_log(),
                self.handed() == old(self).handed(),
                n == old(self).config().processor_parallelism,
                forall|i: int|
                    0 <= i < self.collectors().len() ==> (#[trigger] self.collectors()[i]).is_running(),
                0 <= k <= n,
                self.worker_count() == k,
                forall|v: int|
                    0 <= v < k ==> (#[trigger] self.worker_model(v)) == (WorkerModel {
                        origin: self.ingress_log().len() as int,
                        cursor: self.ingress_log().len() as int,
                        delivered: Seq::<Event>::empty(),
                        accepted: Seq::<Event>::empty(),
                        pending: Seq::<Event>::empty(),
                        flushed: Seq::<Event>::empty(),
                    }),
            decreases n - k,
        {
            let ghost pre = *self;
            let sub = self.ingress.subscribe();
            let batch = WorkerBatch::new(self.cfg.batch_size);
            let worker = Worker { sub, batch, delivered: Ghost(Seq::empty()) };
            let ghost fresh_worker = worker;
            proof {
                assert(chain_somes(self.processors@, Seq::<Event>::empty())
                    == Seq::<Event>::empty());
            }
            self.workers.push(worker);
            proof {
                let fresh = WorkerModel {
                    origin: self.ingress_log().len() as int,
                    cursor: self.ingress_log().len() as int,
                    delivered: Seq::<Event>::empty(),
                    accepted: Seq::<Event>::empty(),
                    pending: Seq::<Event>::empty(),
                    flushed: Seq::<Event>::empty(),
                };
                assert forall|v: int| 0 <= v < k + 1 implies (#[trigger] self.worker_model(v))
                    == fresh by {
                    if v < k {
                        assert(self.workers@[v] == pre.workers@[v]);
                        assert(pre.worker_model(v) == fresh);
                    } else {
                        assert(self.workers@[v] == fresh_worker);
                    }
                }
            }
            k += 1;
        }
        Ok(())
    }

    /// Publish one event into the pipeline (the entry point a collector's
    /// adapter uses). Publishing never blocks and never waits for slow
    /// subscribers.
    pub fn publish(&mut self, event: Event)
        requires
            old(self).wf(),
            old(self).is_running(),
        ensures
            final(self).wf(),
            final(self).is_running(),
            final(self).output_open(),
            final(self).config() == old(self).config(),
            final(self).chain() == old(self).chain(),
            final(self).collectors() == old(self).collectors(),
            final(self).ingress_log() == old(self).ingress_log().push(event),
            final(self).output_log() == old(self).output_log(),
            final(self).stored() == old(self).stored(),
            final(self).notices_log() == old(self).notices_log(),
            final(self).handed() == old(self).handed(),
            final(self).worker_count() == old(self).worker_count(),
            forall|v: int|
                0 <= v < old(self).worker_count() ==> final(self).worker_model(v) == old(self).worker_model(v),
    {
        self.ingress.publish(event);
    }

    /// Run one receive-and-process step for worker `w`, returning whether the
    /// worker had anything to do. One step delivers at most one ingress event
    /// to this worker and to no other: with N workers, one published event
    /// yields up to N independent full traversals of the chain, one per
    /// worker. A delivered event runs the whole chain once; a survivor is
    /// republished on the output bus and accepted into this worker's batch,
    /// which is flushed to storage exactly when it reaches the configured
    /// size. A dropped event causes no later processing, no storage write and
    /// no republish for this worker. A lagging worker only records the loss.
    #[verifier::rlimit(60)]
    pub fn step_worker(&mut self, w: usize) -> (progress: bool)
        requires
            old(self).wf(),
            old(self).output_open(),
            w < old(self).worker_count(),
        ensures
            final(self).wf(),
            final(self).output_open(),
            final(self).phase() == old(self).phase(),
            final(self).config() == old(self).config(),
            final(self).chain() == old(self).chain(),
            final(self).collectors() == old(self).collectors(),
            final(self).ingress_log() == old(self).ingress_log(),
            final(self).worker_count() == old(self).worker_count(),
            forall|v: int|
                0 <= v < old(self).worker_count() && v != w ==> final(self).worker_model(v) == old(self).worker_model(v),
            final(self).worker_model(w as int).origin == old(self).worker_model(w as int).origin,
            progress <==> old(self).worker_model(w as int).cursor < old(self).ingress_log().len(),
            progress ==> final(self).worker_model(w as int).cursor > old(self).worker_model(w as int).cursor,
            !progress ==> {
                &&& final(self).worker_model(w as int) == old(self).worker_model(w as int)
                &&& final(self).output_log() == old(self).output_log()
                &&& final(self).stored() == old(self).stored()
                &&& final(self).notices_log() == old(self).notices_log()
                &&& final(self).handed() == old(self).handed()
            },
            old(self).notices_log().is_prefix_of(final(self).notices_log()),
            old(self).output_log().is_prefix_of(final(self).output_log()),
            old(self).stored().is_prefix_of(final(self).stored()),
            old(self).handed().is_prefix_of(final(self).handed()),
            stop_failure_sum(final(self).notices_log()) == stop_failure_sum(old(self).notices_log()),
            final(self).handed().len() - old(self).handed().len() == final(self).worker_model(
                w as int,
            ).flushed.len() - old(self).worker_model(w as int).flushed.len(),
            exists|s: Seq<Event>|
                {
                    &&& final(self).stored() == old(self).stored() + s
                    &&& #[trigger] subsequence_of(s, final(self).handed().skip(old(self).handed().len() as int))
                    &&& s.len() + store_failure_sum(final(self).notices_log()) - store_failure_sum(old(self).notices_log())
                        == final(self).handed().len() - old(self).handed().len()
                },
            ({
                let log = old(self).ingress_log();
                let m = old(self).worker_model(w as int);
                let cap = old(self).config().buffer_size;
                &&& (log.len() - m.cursor > cap ==> {
                    &&& final(self).worker_model(w as int) == (WorkerModel {
                        cursor: log.len() - cap,
                        ..m
                    })
                    &&& final(self).output_log() == old(self).output_log()
                    &&& final(self).stored() == old(self).stored()
                    &&& final(self).handed() == old(self).handed()
                    &&& final(self).notices_log() == old(self).notices_log().push(
                        Notice::WorkerLagged((log.len() - m.cursor - cap) as usize),
                    )
                })
                &&& (m.cursor < log.len() && log.len() - m.cursor <= cap ==> {
                    let e = log[m.cursor];
                    let res = chain_result(old(self).chain(), e);
                    let nf = chain_failures(old(self).chain(), e);
                    let n1 = if nf == 0 {
                        old(self).notices_log()
                    } else {
                        old(self).notices_log().push(Notice::ProcessorFailures(nf as usize))
                    };
                    let fm = final(self).worker_model(w as int);
                    &&& fm.cursor == m.cursor + 1
                    &&& fm.delivered == m.delivered.push(e)
                    &&& (res is None ==> {
                        &&& fm.accepted == m.accepted
                        &&& fm.pending == m.pending
                        &&& fm.flushed == m.flushed
                        &&& final(self).output_log() == old(self).output_log()
                        &&& final(self).stored() == old(self).stored()
                        &&& final(self).handed() == old(self).handed()
                        &&& final(self).notices_log() == n1
                    })
                    &&& (res matches Some(e2) ==> {
                        &&& final(self).output_log() == old(self).output_log().push(e2)
                        &&& fm.accepted == m.accepted.push(e2)
                        &&& (m.pending.len() + 1 < old(self).config().batch_size ==> {
                            &&& fm.pending == m.pending.push(e2)
                            &&& fm.flushed == m.flushed
                            &&& final(self).stored() == old(self).stored()
                            &&& final(self).handed() == old(self).handed()
                            &&& final(self).notices_log() == n1
                        })
                        &&& (m.pending.len() + 1 == old(self).config().batch_size ==> {
                            let batch = m.pending.push(e2);
                            &&& fm.pending.len() == 0
                            &&& fm.flushed == m.flushed + batch
                            &&& final(self).handed() == old(self).handed() + batch
                            &&& exists|stored: Seq<Event>|
                                {
                                    &&& final(self).stored() == old(self).stored() + stored
                                    &&& #[trigger] subsequence_of(stored, batch)
                                    &&& (stored.len() == batch.len() ==> final(self).notices_log()
                                        == n1)
                                    &&& (stored.len() < batch.len() ==> final(self).notices_log()
                                        == n1.push(
                                        Notice::StoreFailures((batch.len() - stored.len()) as usize),
                                    ))
                                }
                        })
                    })
                })
            }),
    {
        let outcome = {
            let wk = &mut self.workers[w];
            self.ingress.recv(&mut wk.sub)
        };
        match outcome {
            RecvOutcome::Lagged(missed) => {
                proof {
                    lemma_store_failure_sum_push(self.notices@, Notice::WorkerLagged(missed));
                    lemma_stop_failure_sum_push(self.notices@, Notice::WorkerLagged(missed));
                }
                self.notices.push(Notice::WorkerLagged(missed));
                proof {
                    let s0: Seq<Event> = Seq::empty();
                    assert(old(self).stored() + s0 =~= self.stored());
                    assert(self.handed().skip(old(self).handed().len() as int) =~= s0);
                    assert(subsequence_of(s0, self.handed().skip(old(self).handed().len() as int)));
                    assert(exists|s: Seq<Event>|
                        {
                            &&& self.stored() == old(self).stored() + s
                            &&& #[trigger] subsequence_of(s, self.handed().skip(old(self).handed().len() as int))
                            &&& s.len() + store_failure_sum(self.notices_log())
                                - store_failure_sum(old(self).notices_log()) == self.handed().len()
                                - old(self).handed().len()
                        });
                }
                true
            },
            RecvOutcome::Received(e) => {
                let ghost e_spec = e;
                {
                    let wk = &mut self.workers[w];
                    proof {
                        wk.delivered@ = wk.delivered@.push(e_spec);
                    }
                }
                let ghost old_delivered = old(self).worker_model(w as int).delivered;
                proof {
                    assert(old_delivered.push(e_spec).drop_last() =~= old_delivered);
                }
                let (res, failures) = run_chain(&self.processors, e);
                if failures > 0 {
                    proof {
                        lemma_store_failure_sum_push(
                            self.notices@,
                            Notice::ProcessorFailures(failures),
                        );
                        lemma_stop_failure_sum_push(
                            self.notices@,
                            Notice::ProcessorFailures(failures),
                        );
                    }
                    self.notices.push(Notice::ProcessorFailures(failures));
                }
                match res {
                    Some(e2) => {
                        self.output.publish(e2.clone());
                        let flush = {
                            let wk = &mut self.workers[w];
                            wk.batch.accept(e2)
                        };
                        match flush {
                            Some(batch) => {
                                proof {
                                    self.handed@ = self.handed@ + batch@;
                                }
                                let ghost stored_pre = self.storage.log();
                                let ghost notices_pre = self.notices@;
                                let errors = store_batch(&mut self.storage, &batch);
                                if errors.len() > 0 {
                                    self.notices.push(Notice::StoreFailures(errors.len()));
                                    proof {
                                        lemma_store_failure_sum_push(
                                            notices_pre,
                                            Notice::StoreFailures(errors@.len() as usize),
                                        );
                                        lemma_stop_failure_sum_push(
                                            notices_pre,
                                            Notice::StoreFailures(errors@.len() as usize),
                                        );
                                    }
                                }
                                proof {
                                    let s0 = choose|st: Seq<Event>|
                                        {
                                            &&& self.storage.log() == stored_pre + st
                                            &&& #[trigger] subsequence_of(st, batch@)
                                            &&& st.len() + errors@.len() == batch@.len()
                                        };
                                    assert(self.handed().skip(old(self).handed().len() as int)
                                        =~= batch@);
                                    assert(subsequence_of(
                                        s0,
                                        self.handed().skip(old(self).handed().len() as int),
                                    ));
                                    lemma_prefix_push(old(self).notices_log(), Notice::StoreFailures(errors@.len() as usize));
                                    assert(exists|s: Seq<Event>|
                                        {
                                            &&& self.stored() == old(self).stored() + s
                                            &&& #[trigger] subsequence_of(s, self.handed().skip(old(self).handed().len() as int))
                                            &&& s.len() + store_failure_sum(self.notices_log())
                                                - store_failure_sum(old(self).notices_log())
                                                == self.handed().len() - old(self).handed().len()
                                        });
                                }
                            },
                            None => {
                                proof {
                                    let s0: Seq<Event> = Seq::empty();
                                    assert(old(self).stored() + s0 =~= self.stored());
                                    assert(self.handed().skip(old(self).handed().len() as int)
                                        =~= s0);
                                    assert(subsequence_of(
                                        s0,
                                        self.handed().skip(old(self).handed().len() as int),
                                    ));
                                    assert(exists|s: Seq<Event>|
                                        {
                                            &&& self.stored() == old(self).stored() + s
                                            &&& #[trigger] subsequence_of(s, self.handed().skip(old(self).handed().len() as int))
                                            &&& s.len() + store_failure_sum(self.notices_log())
                                                - store_failure_sum(old(self).notices_log())
                                                == self.handed().len() - old(self).handed().len()
                                        });
                                }
                            },
                        }
                        true
                    },
                    None => {
                        proof {
                            let s0: Seq<Event> = Seq::empty();
                            assert(old(self).stored() + s0 =~= self.stored());
                            assert(self.handed().skip(old(self).handed().len() as int) =~= s0);
                            assert(subsequence_of(
                                s0,
                                self.handed().skip(old(self).handed().len() as int),
                            ));
                            assert(exists|s: Seq<Event>|
                                {
                                    &&& self.stored() == old(self).stored() + s
                                    &&& #[trigger] subsequence_of(s, self.handed().skip(old(self).handed().len() as int))
                                    &&& s.len() + store_failure_sum(self.notices_log())
                                        - store_failure_sum(old(self).notices_log())
                                        == self.handed().len() - old(self).handed().len()
                                });
                        }
                        true
                    },
                }
            },
            RecvOutcome::Empty => {
                proof {
                    let s0: Seq<Event> = Seq::empty();
                    assert(old(self).stored() + s0 =~= self.stored());
                    assert(self.handed().skip(old(self).handed().len() as int) =~= s0);
                    assert(subsequence_of(s0, self.handed().skip(old(self).handed().len() as int)));
                    assert(exists|s: Seq<Event>|
                        {
                            &&& self.stored() == old(self).stored() + s
                            &&& #[trigger] subsequence_of(s, self.handed().skip(old(self).handed().len() as int))
                            &&& s.len() + store_failure_sum(self.notices_log())
                                - store_failure_sum(old(self).notices_log()) == self.handed().len()
                                - old(self).handed().len()
                        });
                }
                false
            },
            RecvOutcome::Closed => {
                proof {
                    let s0: Seq<Event> = Seq::empty();
                    assert(old(self).stored() + s0 =~= self.stored());
                    assert(self.handed().skip(old(self).handed().len() as int) =~= s0);
                    assert(subsequence_of(s0, self.handed().skip(old(self).handed().len() as int)));
                    assert(exists|s: Seq<Event>|
                        {
                            &&& self.stored() == old(self).stored() + s
                            &&& #[trigger] subsequence_of(s, self.handed().skip(old(self).handed().len() as int))
                            &&& s.len() + store_failure_sum(self.notices_log())
                                - store_failure_sum(old(self).notices_log()) == self.handed().len()
                                - old(self).handed().len()
                        });
                }
                false
            },
        }
    }

    /// Open an independent live subscription to the pipeline's output: only
    /// events republished after this call are visible through it, with no
    /// replay of history.
    pub fn subscribe(&self) -> (sub: BusSubscription)
        ensures
            self.subscription_valid(sub),
            sub.origin() == self.output_log().len(),
            sub.next_index() == self.output_log().len(),
    {
        self.output.subscribe()
    }

    /// One receive attempt on a live subscription: the next processed event
    /// in republish order, a lag indication when the subscriber fell behind
    /// by more than the bus capacity, or `Empty`/`Closed` at the end of what
    /// was republished so far. Nothing republished before the subscription's
    /// origin is ever delivered.
    pub fn poll(&self, sub: &mut BusSubscription) -> (r: RecvOutcome)
        requires
            self.wf(),
            self.subscription_valid(*old(sub)),
        ensures
            self.subscription_valid(*final(sub)),
            final(sub).origin() == old(sub).origin(),
            old(sub).next_index() <= final(sub).next_index(),
            (r is Lagged) <==> self.output_log().len() - old(sub).next_index() > self.config().buffer_size,
            r matches RecvOutcome::Lagged(missed) ==> {
                &&& missed == self.output_log().len() - old(sub).next_index()
                    - self.config().buffer_size
                &&& final(sub).next_index() == self.output_log().len() - self.config().buffer_size
            },
            (r is Received) <==> (old(sub).next_index() < self.output_log().len()
                && self.output_log().len() - old(sub).next_index() <= self.config().buffer_size),
            r matches RecvOutcome::Received(e) ==> {
                &&& e == self.output_log()[old(sub).next_index()]
                &&& final(sub).next_index() == old(sub).next_index() + 1
                &&& exists|i: int|
                    old(sub).origin() <= i < self.output_log().len() && e == self.output_log()[i]
            },
            (r is Closed || r is Empty) <==> old(sub).next_index() == self.output_log().len(),
    {
        self.output.recv(sub)
    }

    /// The records emitted to the observability sink so far, oldest first.
    pub fn notices(&self) -> &Vec<Notice> {
        &self.notices
    }

    /// Query the storage sink. The pipeline does not interpret the query.
    pub fn query(&self, query: &EventQuery) -> (r: Result<Vec<Event>, EventError>)
        ensures
            r matches Ok(v) ==> v@ == query_results(self.stored(), *query),
    {
        self.storage.query(query)
    }

    /// Stop the pipeline: close the ingress bus, let every worker drain what
    /// it can still read and flush its remaining partial batch exactly once,
    /// then stop collectors in declaration order, continue-on-error (stop
    /// failures are recorded, not escalated), and finally close the output
    /// bus. After a clean shutdown no event accepted into a worker's batch is
    /// lost: everything each worker accepted has been handed to storage.
    pub fn stop(&mut self) -> (r: Result<(), EventError>)
        requires
            old(self).wf(),
            old(self).is_running(),
        ensures
            final(self).wf(),
            final(self).phase() is Stopped,
            final(self).config() == old(self).config(),
            final(self).chain() == old(self).chain(),
            final(self).ingress_log() == old(self).ingress_log(),
            final(self).worker_count() == old(self).worker_count(),
            final(self).collectors().len() == old(self).collectors().len(),
            !final(self).output_open(),
            r is Ok,
            forall|v: int|
                0 <= v < final(self).worker_count() ==> {
                    let m = (#[trigger] final(self).worker_model(v));
                    &&& m.cursor == final(self).ingress_log().len()
                    &&& m.pending.len() == 0
                    &&& m.flushed == m.accepted
                    &&& m.accepted == chain_somes(final(self).chain(), m.delivered)
                },
            old(self).notices_log().is_prefix_of(final(self).notices_log()),
            old(self).output_log().is_prefix_of(final(self).output_log()),
            old(self).stored().is_prefix_of(final(self).stored()),
            old(self).handed().is_prefix_of(final(self).handed()),
            exists|s: Seq<Event>|
                {
                    &&& final(self).stored() == old(self).stored() + s
                    &&& #[trigger] subsequence_of(s, final(self).handed().skip(old(self).handed().len() as int))
                    &&& s.len() + store_failure_sum(final(self).notices_log()) - store_failure_sum(old(self).notices_log())
                        == final(self).handed().len() - old(self).handed().len()
                },
            final(self).handed().len() - old(self).handed().len()
                == final(self).flushed_total(final(self).worker_count())
                - old(self).flushed_total(old(self).worker_count()),
            running_count(final(self).collectors()) <= stop_failure_sum(final(self).notices_log())
                - stop_failure_sum(old(self).notices_log()),
            stop_failure_sum(final(self).notices_log()) == stop_failure_sum(old(self).notices_log())
                ==> forall|i: int|
                0 <= i < final(self).collectors().len()
                    ==> !(#[trigger] final(self).collectors()[i]).is_running(),
    {
        self.phase = Phase::Stopped;
        self.ingress.close();
        let n = self.workers.len();
        proof {
            lemma_prefix_refl(self.notices_log());
            lemma_prefix_refl(self.output_log());
            lemma_prefix_refl(self.stored());
            lemma_prefix_refl(self.handed());
            let s0: Seq<Event> = Seq::empty();
            assert(old(self).stored() + s0 =~= self.stored());
            assert(self.handed().skip(old(self).handed().len() as int) =~= s0);
            assert(subsequence_of(s0, self.handed().skip(old(self).handed().len() as int)));
            Self::lemma_flushed_total_congruent(*old(self), *self, n as int);
        }
        let mut v: usize = 0;
        while v < n
            invariant
                self.wf(),
                self.output_open(),
                self.phase() is Stopped,
                self.config() == old(self).config(),
                self.chain() == old(self).chain(),
                self.collectors() == old(self).collectors(),
                self.ingress_log() == old(self).ingress_log(),
                self.worker_count() == n,
                0 <= v <= n,
                forall|i: int|
                    0 <= i < self.collectors().len() ==> (#[trigger] self.collectors()[i]).is_running(),
                forall|j: int|
                    0 <= j < v ==> {
                        let m = (#[trigger] self.worker_model(j));
                        &&& m.cursor == self.ingress_log().len()
                        &&& m.pending.len() == 0
                        &&& m.flushed == m.accepted
                    },
                old(self).notices_log().is_prefix_of(self.notices_log()),
                old(self).output_log().is_prefix_of(self.output_log()),
                old(self).stored().is_prefix_of(self.stored()),
                old(self).handed().is_prefix_of(self.handed()),
                stop_failure_sum(self.notices_log()) == stop_failure_sum(old(self).notices_log()),
                exists|s: Seq<Event>|
                    {
                        &&& self.stored() == old(self).stored() + s
                        &&& #[trigger] subsequence_of(s, self.handed().skip(old(self).handed().len() as int))
                        &&& s.len() + store_failure_sum(self.notices_log()) - store_failure_sum(old(self).notices_log())
                            == self.handed().len() - old(self).handed().len()
                    },
                self.handed().len() - old(self).handed().len() == self.flushed_total(n as int)
                    - old(self).flushed_total(n as int),
            decreases n - v,
        {
            let mut progress = true;
            while progress
                invariant
                    self.wf(),
                    self.output_open(),
                    self.phase() is Stopped,
                    self.config() == old(self).config(),
                    self.chain() == old(self).chain(),
                    self.collectors() == old(self).collectors(),
                    self.ingress_log() == old(self).ingress_log(),
                    self.worker_count() == n,
                    0 <= v < n,
                    forall|i: int|
                        0 <= i < self.collectors().len() ==> (#[trigger] self.collectors()[i]).is_running(),
                    forall|j: int|
                        0 <= j < v ==> {
                            let m = (#[trigger] self.worker_model(j));
                            &&& m.cursor == self.ingress_log().len()
                            &&& m.pending.len() == 0
                            &&& m.flushed == m.accepted
                        },
                    !progress ==> self.worker_model(v as int).cursor == self.ingress_log().len(),
                    old(self).notices_log().is_prefix_of(self.notices_log()),
                    old(self).output_log().is_prefix_of(self.output_log()),
                    old(self).stored().is_prefix_of(self.stored()),
                    old(self).handed().is_prefix_of(self.handed()),
                    stop_failure_sum(self.notices_log()) == stop_failure_sum(old(self).notices_log()),
                    exists|s: Seq<Event>|
                        {
                            &&& self.stored() == old(self).stored() + s
                            &&& #[trigger] subsequence_of(s, self.handed().skip(old(self).handed().len() as int))
                            &&& s.len() + store_failure_sum(self.notices_log()) - store_failure_sum(old(self).notices_log())
                                == self.handed().len() - old(self).handed().len()
                        },
                    self.handed().len() - old(self).handed().len() == self.flushed_total(n as int)
                        - old(self).flushed_total(n as int),
                decreases self.ingress_log().len() - self.worker_model(v as int).cursor + (
                if progress {
                    1int
                } else {
                    0int
                }),
            {
                let ghost pre = *self;
                progress = self.step_worker(v);
                proof {
                    lemma_prefix_trans(old(self).notices_log(), pre.notices_log(), self.notices_log());
                    lemma_prefix_trans(old(self).output_log(), pre.output_log(), self.output_log());
                    lemma_prefix_trans(old(self).stored(), pre.stored(), self.stored());
                    lemma_prefix_trans(old(self).handed(), pre.handed(), self.handed());
                    lemma_accounting_compose(
                        old(self).stored(),
                        pre.stored(),
                        self.stored(),
                        old(self).handed(),
                        pre.handed(),
                        self.handed(),
                        store_failure_sum(old(self).notices_log()),
                        store_failure_sum(pre.notices_log()),
                        store_failure_sum(self.notices_log()),
                    );
                    Self::lemma_flushed_total_change(pre, *self, v as int, n as int);
                }
            }
            let ghost pre = *self;
            let rest = {
                let wk = &mut self.workers[v];
                wk.batch.drain()
            };
            proof {
                self.handed@ = self.handed@ + rest@;
                assert(self.worker_model(v as int).pending.len() == 0);
                assert(self.worker_model(v as int).flushed == self.worker_model(
                    v as int,
                ).accepted);
                assert(self.worker_model(v as int).cursor == pre.worker_model(v as int).cursor);
                assert(pre.worker_model(v as int).cursor == self.ingress_log().len());
            }
            let ghost stored_pre = self.storage.log();
            let ghost notices_pre = self.notices@;
            let errors = store_batch(&mut self.storage, &rest);
            if errors.len() > 0 {
                self.notices.push(Notice::StoreFailures(errors.len()));
                proof {
                    lemma_store_failure_sum_push(
                        notices_pre,
                        Notice::StoreFailures(errors@.len() as usize),
                    );
                    lemma_stop_failure_sum_push(
                        notices_pre,
                        Notice::StoreFailures(errors@.len() as usize),
                    );
                }
            }
            proof {
                let s0 = choose|st: Seq<Event>|
                    {
                        &&& self.storage.log() == stored_pre + st
                        &&& #[trigger] subsequence_of(st, rest@)
                        &&& st.len() + errors@.len() == rest@.len()
                    };
                assert(self.handed().skip(pre.handed().len() as int) =~= rest@);
                assert(subsequence_of(s0, self.handed().skip(pre.handed().len() as int)));
                assert(exists|s: Seq<Event>|
                    {
                        &&& self.stored() == pre.stored() + s
                        &&& #[trigger] subsequence_of(s, self.handed().skip(pre.handed().len() as int))
                        &&& s.len() + store_failure_sum(self.notices_log()) - store_failure_sum(pre.notices_log())
                            == self.handed().len() - pre.handed().len()
                    });
                assert(pre.handed().is_prefix_of(self.handed())) by {
                    assert(self.handed().subrange(0, pre.handed().len() as int) =~= pre.handed());
                }
                lemma_prefix_refl(self.output_log());
                if errors@.len() > 0 {
                    lemma_prefix_push(
                        pre.notices_log(),
                        Notice::StoreFailures(errors@.len() as usize),
                    );
                } else {
                    lemma_prefix_refl(self.notices_log());
                }
                assert(pre.stored().is_prefix_of(self.stored())) by {
                    assert(self.stored().subrange(0, pre.stored().len() as int) =~= pre.stored());
                }
                lemma_prefix_trans(old(self).notices_log(), pre.notices_log(), self.notices_log());
                lemma_prefix_trans(old(self).output_log(), pre.output_log(), self.output_log());
                lemma_prefix_trans(old(self).stored(), pre.stored(), self.stored());
                lemma_prefix_trans(old(self).handed(), pre.handed(), self.handed());
                lemma_accounting_compose(
                    old(self).stored(),
                    pre.stored(),
                    self.stored(),
                    old(self).handed(),
                    pre.handed(),
                    self.handed(),
                    store_failure_sum(old(self).notices_log()),
                    store_failure_sum(pre.notices_log()),
                    store_failure_sum(self.notices_log()),
                );
                Self::lemma_flushed_total_change(pre, *self, v as int, n as int);
                assert forall|j: int| 0 <= j < v + 1 implies {
                    let m = (#[trigger] self.worker_model(j));
                    &&& m.cursor == self.ingress_log().len()
                    &&& m.pending.len() == 0
                    &&& m.flushed == m.accepted
                } by {
                    if j < v {
                        assert(self.workers@[j] == pre.workers@[j]);
                        assert(self.worker_model(j) == pre.worker_model(j));
                    } else {
                        assert(self.workers@[j] == self.workers@[v as int]);
                        assert(pre.worker_model(v as int).cursor == self.ingress_log().len());
                    }
                }
            }
            v += 1;
        }
        let ghost mid = *self;
        let stop_errors = stop_all(&mut self.collectors);
        if stop_errors.len() > 0 {
            proof {
                lemma_store_failure_sum_push(
                    mid.notices_log(),
                    Notice::StopFailures(stop_errors@.len() as usize),
                );
                lemma_stop_failure_sum_push(
                    mid.notices_log(),
                    Notice::StopFailures(stop_errors@.len() as usize),
                );
                lemma_prefix_push(
                    mid.notices_log(),
                    Notice::StopFailures(stop_errors@.len() as usize),
                );
            }
            self.notices.push(Notice::StopFailures(stop_errors.len()));
        } else {
            proof {
                lemma_running_count_bounds(self.collectors());
                lemma_running_count_zero(self.collectors());
            }
        }
        self.output.close();
        proof {
            lemma_prefix_trans(old(self).notices_log(), mid.notices_log(), self.notices_log());
            assert forall|j: int| 0 <= j < self.worker_count() implies {
                let m = (#[trigger] self.worker_model(j));
                &&& m.cursor == self.ingress_log().len()
                &&& m.pending.len() == 0
                &&& m.flushed == m.accepted
                &&& m.accepted == chain_somes(self.processors@, m.delivered)
            } by {
                assert(self.workers@[j] == mid.workers@[j]);
                assert(self.worker_model(j) == mid.worker_model(j));
                assert(mid.worker_model(j).cursor == mid.ingress_log().len());
            }
            Self::lemma_flushed_total_congruent(mid, *self, n as int);
            if stop_errors@.len() > 0 {
                lemma_running_count_bounds(self.collectors());
            }
            let s_mid = choose|s: Seq<Event>|
                {
                    &&& mid.stored() == old(self).stored() + s
                    &&& #[trigger] subsequence_of(s, mid.handed().skip(old(self).handed().len() as int))
                    &&& s.len() + store_failure_sum(mid.notices_log()) - store_failure_sum(old(self).notices_log())
                        == mid.handed().len() - old(self).handed().len()
                };
            assert(self.stored() == mid.stored());
            assert(self.handed() == mid.handed());
            assert(store_failure_sum(self.notices_log()) == store_failure_sum(mid.notices_log()));
            assert(exists|s: Seq<Event>|
                {
                    &&& self.stored() == old(self).stored() + s
                    &&& #[trigger] subsequence_of(s, self.handed().skip(old(self).handed().len() as int))
                    &&& s.len() + store_failure_sum(self.notices_log()) - store_failure_sum(old(self).notices_log())
                        == self.handed().len() - old(self).handed().len()
                });
        }
        Ok(())
    }
}

} // verus!
