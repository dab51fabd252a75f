//! One tick of the per-process polling loop, as a function from poll results
//! to events.
//!
//! The loop itself - sleeping, reading the child's streams, querying its
//! liveness - runs outside the library. Each tick it hands in what the
//! operating system answered: the outcome of a bounded read from standard
//! output, the same for standard error, and the outcome of a non-blocking
//! liveness query. The library translates those into events, in production
//! order, and appends them to the process's queue.

use vstd::prelude::*;

use crate::event::HandleType;
use crate::event::ManagerError;
use crate::event::ProcessError;
use crate::event::ProcessEvent;
use crate::event::MAX_LINE;
use crate::manager::ProcessManager;

verus! {

/// The outcome of one bounded read from a child process's output stream.
pub enum ReadOutcome {
    /// A successful read: the buffer read into and how many of its bytes
    /// were filled. A length of 0 is a valid read and is reported too.
    Read(Vec<u8>, usize),
    /// The read failed; carries a description of the cause. Not fatal.
    ReadError(String),
}

/// The outcome of one non-blocking liveness query of a child process.
pub enum WaitOutcome {
    /// The process is still running: the loop goes on to its next tick.
    Running,
    /// The process exited with this code (0 on success). Ends the loop.
    Exited(i32),
    /// The query itself failed; carries a description of the cause. Fatal to
    /// this process's supervision (the loop ends), though the operating
    /// system process itself is left as it is.
    WaitError(String),
}

impl ReadOutcome {
    /// A read outcome is well formed when the reported length does not
    /// exceed the bytes carried, nor the bounded chunk size.
    pub open spec fn wf(self) -> bool {
        match self {
            ReadOutcome::Read(bytes, len) => len <= bytes@.len() && len <= MAX_LINE,
            ReadOutcome::ReadError(_) => true,
        }
    }

    /// Runtime check of `wf`.
    pub fn is_wf(&self) -> (r: bool)
        ensures
            r == self.wf(),
    {
        match self {
            ReadOutcome::Read(bytes, len) => *len <= bytes.len() && *len <= MAX_LINE,
            ReadOutcome::ReadError(_) => true,
        }
    }
}

/// The event a read outcome translates to: an output chunk on success, a
/// non-fatal `ErrorReading` event on failure.
pub open spec fn read_event(h: HandleType, r: ReadOutcome) -> ProcessEvent {
    match r {
        ReadOutcome::Read(bytes, len) => ProcessEvent::Output(h, bytes, len),
        ReadOutcome::ReadError(c) => ProcessEvent::Error(ProcessError::ErrorReading(c)),
    }
}

/// The events a liveness outcome translates to: nothing while the process
/// runs, and exactly one terminal event once it is gone.
pub open spec fn wait_event_seq(w: WaitOutcome) -> Seq<ProcessEvent> {
    match w {
        WaitOutcome::Running => Seq::empty(),
        WaitOutcome::Exited(code) => seq![ProcessEvent::Exited(code)],
        WaitOutcome::WaitError(c) => seq![ProcessEvent::Error(ProcessError::ErrorWaiting(c))],
    }
}

/// All events of one tick, in production order: the standard-output read,
/// then the standard-error read, then whatever the liveness query yields.
pub open spec fn tick_event_seq(
    out_read: ReadOutcome,
    err_read: ReadOutcome,
    wait: WaitOutcome,
) -> Seq<ProcessEvent> {
    seq![
        read_event(HandleType::StdOutput, out_read),
        read_event(HandleType::StdError, err_read),
    ] + wait_event_seq(wait)
}

/// Translate the poll results of one tick into events.
///
/// Returns the events in production order together with whether the loop
/// should continue: it continues exactly when the process was still running,
/// which is also exactly when no terminal event was produced.
pub fn tick_events(out_read: ReadOutcome, err_read: ReadOutcome, wait: WaitOutcome) -> (r: (
    Vec<ProcessEvent>,
    bool,
))
    requires
        out_read.wf(),
        err_read.wf(),
    ensures
        r.0@ == tick_event_seq(out_read, err_read, wait),
        r.1 <==> wait is Running,
        forall|i: int| 0 <= i < r.0@.len() ==> (#[trigger] r.0@[i]).wf(),
        forall|i: int| 0 <= i < r.0@.len() - 1 ==> !(#[trigger] r.0@[i]).terminal(),
        r.0@.len() > 0,
        r.1 <==> !r.0@.last().terminal(),
{
    let mut events: Vec<ProcessEvent> = Vec::new();
    match out_read {
        ReadOutcome::Read(bytes, len) => events.push(
            ProcessEvent::Output(HandleType::StdOutput, bytes, len),
        ),
        ReadOutcome::ReadError(c) => events.push(
            ProcessEvent::Error(ProcessError::ErrorReading(c)),
        ),
    }
    match err_read {
        ReadOutcome::Read(bytes, len) => events.push(
            ProcessEvent::Output(HandleType::StdError, bytes, len),
        ),
        ReadOutcome::ReadError(c) => events.push(
            ProcessEvent::Error(ProcessError::ErrorReading(c)),
        ),
    }
    let cont = match wait {
        WaitOutcome::Running => true,
        WaitOutcome::Exited(code) => {
            events.push(ProcessEvent::Exited(code));
            false
        },
        WaitOutcome::WaitError(c) => {
            events.push(ProcessEvent::Error(ProcessError::ErrorWaiting(c)));
            false
        },
    };
    proof {
        assert(events@ =~= tick_event_seq(out_read, err_read, wait));
    }
    (events, cont)
}

impl ProcessManager {
    /// One tick of the per-process polling loop for the named process,
    /// without an interception hook: translate the poll results into events
    /// and append them all to the process's queue.
    ///
    /// Returns `Ok(true)` when the loop should continue (the process was
    /// still running), `Ok(false)` when the tick produced the terminal event
    /// and the loop must end, and `ProcessUnknown` when the name is no
    /// longer registered - which is how the loop observes an explicit stop.
    pub fn process_tick(
        &mut self,
        name: &str,
        out_read: ReadOutcome,
        err_read: ReadOutcome,
        wait: WaitOutcome,
    ) -> (r: Result<bool, ManagerError>)
        requires
            old(self).wf(),
            out_read.wf(),
            err_read.wf(),
            old(self).contains_name(name@) ==> !old(self).closed_of(name@),
        ensures
            final(self).wf(),
            final(self).names() == old(self).names(),
            r is Ok <==> old(self).contains_name(name@),
            r is Err ==> r == Err::<bool, ManagerError>(ManagerError::ProcessUnknown) && *final(self) == *old(self),
            r matches Ok(cont) ==> {
                &&& final(self).queue_of(name@) == old(self).queue_of(name@) + tick_event_seq(
                    out_read,
                    err_read,
                    wait,
                )
                &&& final(self).delivered_of(name@) == old(self).delivered_of(name@)
                &&& (cont <==> wait is Running)
                &&& final(self).closed_of(name@) == !(wait is Running)
            },
            forall|n2: Seq<char>|
                n2 != name@ && old(self).contains_name(n2) ==> #[trigger] final(self).control_of(n2)
                    == old(self).control_of(n2),
    {
        if !self.contains(name) {
            return Err(ManagerError::ProcessUnknown);
        }
        let (mut events, cont) = tick_events(out_read, err_read, wait);
        let total = events.len();
        let ghost evseq = events@;
        let ghost mid = *self;
        let mut i: usize = 0;
        while events.len() > 0
            invariant
                self.wf(),
                total == evseq.len(),
                i + events@.len() == evseq.len(),
                events@ == evseq.skip(i as int),
                forall|k: int| 0 <= k < evseq.len() ==> (#[trigger] evseq[k]).wf(),
                forall|k: int| 0 <= k < evseq.len() - 1 ==> !(#[trigger] evseq[k]).terminal(),
                mid.wf(),
                mid == *old(self),
                mid.contains_name(name@),
                !mid.closed_of(name@),
                self.names() == mid.names(),
                self.contains_name(name@),
                self.queue_of(name@) == mid.queue_of(name@) + evseq.take(i as int),
                self.delivered_of(name@) == mid.delivered_of(name@),
                self.closed_of(name@) == (i > 0 && evseq[i - 1].terminal()),
                i < evseq.len() ==> !self.closed_of(name@),
                forall|n2: Seq<char>|
                    n2 != name@ && mid.contains_name(n2) ==> #[trigger] self.control_of(n2)
                        == mid.control_of(n2),
            decreases events@.len(),
        {
            let ev = events.remove(0);
            let ghost pre = *self;
            let res = self.enqueue_event(name, ev);
            proof {
                assert(res is Ok);
                assert(self.queue_of(name@) =~= mid.queue_of(name@) + evseq.take(i as int + 1));
                assert(events@ =~= evseq.skip(i as int + 1));
                assert forall|n2: Seq<char>|
                    n2 != name@ && mid.contains_name(n2) implies #[trigger] self.control_of(n2)
                    == mid.control_of(n2) by {
                    assert(pre.contains_name(n2) == mid.contains_name(n2));
                    assert(pre.control_of(n2) == mid.control_of(n2));
                }
            }
            i += 1;
        }
        proof {
            assert(evseq.take(evseq.len() as int) =~= evseq);
        }
        Ok(cont)
    }
}

} // verus!
