//! The per-process control block: a FIFO queue of pending events, a flag
//! recording that the process's terminal event has been produced, and a
//! ghost history of the events already delivered to the director.
//!
//! The well-formedness invariant pins down the two per-process guarantees:
//! every queued output chunk respects the chunk bound, and at most one
//! terminal event is ever produced, always as the last event.

use vstd::prelude::*;

use crate::event::ProcessEvent;

verus! {

/// The control block owned by one registry entry for one supervised process.
///
/// Events are pushed at the back by the process loop and popped at the front
/// by the director, so delivery order equals production order by
/// construction; `history` records what has been popped.
pub struct ProcessControl {
    queue: Vec<ProcessEvent>,
    closed: bool,
    history: Ghost<Seq<ProcessEvent>>,
}

impl ProcessControl {
    /// The events produced but not yet delivered, oldest first.
    pub closed spec fn pending(self) -> Seq<ProcessEvent> {
        self.queue@
    }

    /// The events already delivered to the director, oldest first.
    pub closed spec fn delivered(self) -> Seq<ProcessEvent> {
        self.history@
    }

    /// Whether the terminal event has been produced: once closed, nothing
    /// more may be enqueued.
    pub closed spec fn is_closed(self) -> bool {
        self.closed
    }

    /// Every event produced so far, in production order.
    pub open spec fn produced(self) -> Seq<ProcessEvent> {
        self.delivered() + self.pending()
    }

    /// Well-formedness: all produced events are well formed, no event other
    /// than the last is terminal, and the block is closed exactly when the
    /// last produced event is terminal.
    pub open spec fn wf(self) -> bool {
        &&& forall|i: int|
            0 <= i < self.produced().len() ==> (#[trigger] self.produced()[i]).wf()
        &&& forall|i: int|
            0 <= i < self.produced().len() - 1 ==> !(#[trigger] self.produced()[i]).terminal()
        &&& self.is_closed() <==> (self.produced().len() > 0 && self.produced().last().terminal())
    }

    /// A fresh control block: nothing produced, nothing delivered, open.
    pub fn new() -> (c: ProcessControl)
        ensures
            c.wf(),
            c.pending() == Seq::<ProcessEvent>::empty(),
            c.delivered() == Seq::<ProcessEvent>::empty(),
            !c.is_closed(),
    {
        ProcessControl { queue: Vec::new(), closed: false, history: Ghost(Seq::empty()) }
    }

    /// Whether any event awaits delivery.
    pub fn has_pending(&self) -> (r: bool)
        ensures
            r <==> self.pending().len() > 0,
    {
        self.queue.len() > 0
    }

    /// Runtime view of `is_closed`.
    pub fn queue_closed(&self) -> (r: bool)
        ensures
            r == self.is_closed(),
    {
        self.closed
    }

    /// Record one produced event at the back of the queue. Closes the block
    /// when the event is terminal; a closed block accepts nothing more,
    /// which is what makes the terminal event the last one.
    pub fn enqueue(&mut self, ev: ProcessEvent)
        requires
            old(self).wf(),
            !old(self).is_closed(),
            ev.wf(),
        ensures
            final(self).wf(),
            final(self).pending() == old(self).pending().push(ev),
            final(self).delivered() == old(self).delivered(),
            final(self).produced() == old(self).produced().push(ev),
            final(self).is_closed() == ev.terminal(),
    {
        let terminal = ev.is_terminal();
        proof {
            assert(old(self).produced().push(ev) =~= old(self).delivered() + old(self).pending().push(ev));
        }
        self.queue.push(ev);
        self.closed = terminal;
    }

    /// Deliver the oldest pending event, if any, moving it from the queue to
    /// the delivery history. The set of produced events is unchanged: only
    /// the delivered/pending split moves.
    pub fn dequeue(&mut self) -> (r: Option<ProcessEvent>)
        requires
            old(self).wf(),
        ensures
            final(self).wf(),
            final(self).is_closed() == old(self).is_closed(),
            final(self).produced() == old(self).produced(),
            old(self).pending().len() == 0 ==> r is None && *final(self) == *old(self),
            old(self).pending().len() > 0 ==> {
                &&& r == Some(old(self).pending()[0])
                &&& final(self).pending() == old(self).pending().drop_first()
                &&& final(self).delivered() == old(self).delivered().push(old(self).pending()[0])
            },
    {
        if self.queue.len() == 0 {
            None
        } else {
            let ev = self.queue.remove(0);
            self.history = Ghost(self.history@.push(ev));
            proof {
                assert(self.delivered() + self.pending() =~= old(self).delivered() + old(self).pending());
            }
            Some(ev)
        }
    }
}

/// Law: delivery preserves production order, and a process produces at most
/// one terminal event, always as its last.
///
/// The delivered history is always exactly the first delivered-count events
/// produced; no produced event other than the last is terminal; and once a
/// closed block's queue is drained, the delivered history ends with the
/// process's terminal event.
pub proof fn lemma_delivery_order(c: ProcessControl)
    requires
        c.wf(),
    ensures
        c.delivered() == c.produced().take(c.delivered().len() as int),
        forall|i: int| 0 <= i < c.produced().len() - 1 ==> !(#[trigger] c.produced()[i]).terminal(),
        c.is_closed() && c.pending().len() == 0 && c.delivered().len() > 0 ==> c.delivered().last().terminal(),
{
    assert(c.delivered() =~= c.produced().take(c.delivered().len() as int));
    if c.is_closed() && c.pending().len() == 0 && c.delivered().len() > 0 {
        assert(c.delivered() =~= c.produced());
    }
}

} // verus!
