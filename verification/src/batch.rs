//! Worker-local batching: each worker owns a private batch buffer with no
//! cross-worker coordination. A successfully processed event is appended to
//! the batch; when the batch reaches the configured size it is handed back
//! whole for flushing, and on clean shutdown the remainder is handed back
//! exactly once, so nothing accepted into a batch is lost.

use vstd::prelude::*;

use crate::event::Event;

verus! {

/// A worker's private batch buffer, with the history of what it accepted and
/// what it has already handed over for flushing.
pub struct WorkerBatch {
    buf: Vec<Event>,
    batch_size: usize,
    accepted: Ghost<Seq<Event>>,
    flushed: Ghost<Seq<Event>>,
}

impl WorkerBatch {
    /// Events accepted but not yet handed over for flushing, in order.
    pub closed spec fn pending(&self) -> Seq<Event> {
        self.buf@
    }

    /// The flush threshold.
    pub closed spec fn threshold(&self) -> int {
        self.batch_size as int
    }

    /// Every event ever accepted, in order.
    pub closed spec fn accepted(&self) -> Seq<Event> {
        self.accepted@
    }

    /// Every event handed over for flushing so far, in order.
    pub closed spec fn flushed(&self) -> Seq<Event> {
        self.flushed@
    }

    /// Nothing accepted is ever lost or reordered: what was flushed followed
    /// by what is still pending is exactly what was accepted, and the pending
    /// part always sits strictly below the flush threshold.
    pub open spec fn wf(&self) -> bool {
        &&& self.threshold() >= 1
        &&& self.flushed() + self.pending() == self.accepted()
        &&& self.pending().len() < self.threshold()
    }

    pub fn new(batch_size: usize) -> (b: WorkerBatch)
        requires
            batch_size >= 1,
        ensures
            b.wf(),
            b.threshold() == batch_size,
            b.accepted() == Seq::<Event>::empty(),
            b.flushed() == Seq::<Event>::empty(),
            b.pending() == Seq::<Event>::empty(),
    {
        let b = WorkerBatch {
            buf: Vec::new(),
            batch_size,
            accepted: Ghost(Seq::empty()),
            flushed: Ghost(Seq::empty()),
        };
        proof {
            assert(b.flushed() + b.pending() =~= b.accepted());
        }
        b
    }

    /// Accept one successfully processed event. Exactly when this is the
    /// `threshold`-th event accepted since the last flush, the whole batch is
    /// handed back for flushing and the buffer starts over empty.
    pub fn accept(&mut self, event: Event) -> (flush: Option<Vec<Event>>)
        requires
            old(self).wf(),
        ensures
            final(self).wf(),
            final(self).threshold() == old(self).threshold(),
            final(self).accepted() == old(self).accepted().push(event),
            (flush is Some) <==> old(self).pending().len() + 1 == old(self).threshold(),
            flush matches Some(batch) ==> {
                &&& batch@ == old(self).pending().push(event)
                &&& batch@.len() == old(self).threshold()
                &&& final(self).pending().len() == 0
                &&& final(self).flushed() == old(self).flushed() + batch@
            },
            flush is None ==> {
                &&& final(self).pending() == old(self).pending().push(event)
                &&& final(self).flushed() == old(self).flushed()
            },
    {
        self.buf.push(event);
        proof {
            self.accepted@ = self.accepted@.push(event);
        }
        if self.buf.len() == self.batch_size {
            let mut out: Vec<Event> = Vec::new();
            core::mem::swap(&mut out, &mut self.buf);
            proof {
                self.flushed@ = self.flushed@ + out@;
                assert(self.flushed() + self.pending() =~= self.accepted());
            }
            Some(out)
        } else {
            proof {
                assert(self.flushed() + self.pending() =~= self.accepted());
            }
            None
        }
    }

    /// Hand back whatever is still pending (possibly nothing) for the final
    /// flush at clean shutdown. Afterwards everything accepted has been
    /// handed over: no batched event is lost on clean shutdown.
    pub fn drain(&mut self) -> (rest: Vec<Event>)
        requires
            old(self).wf(),
        ensures
            final(self).wf(),
            final(self).threshold() == old(self).threshold(),
            rest@ == old(self).pending(),
            final(self).accepted() == old(self).accepted(),
            final(self).pending().len() == 0,
            final(self).flushed() == final(self).accepted(),
    {
        let mut out: Vec<Event> = Vec::new();
        core::mem::swap(&mut out, &mut self.buf);
        proof {
            self.flushed@ = self.flushed@ + out@;
            assert(self.flushed() + self.pending() =~= self.flushed());
        }
        out
    }
}

/// Once the pending buffer is empty — as it is after `drain` — the flushed
/// history is the whole accepted history: clean shutdown loses nothing.
pub proof fn lemma_no_loss_when_drained(b: &WorkerBatch)
    requires
        b.wf(),
        b.pending().len() == 0,
    ensures
        b.flushed() == b.accepted(),
{
    assert(b.flushed() =~= b.flushed() + b.pending());
}

} // verus!
