//! The process registry: a mapping from unique names to per-process control
//! blocks. A name is present exactly while a process is registered and not
//! yet removed; entries are added only by `register` and removed only by
//! `stop_process` or by the director's post-visitation cleanup.

use vstd::prelude::*;

use crate::control::ProcessControl;
use crate::director::exited_in;
use crate::director::exited_names;
use crate::director::name_views;
use crate::director::pass_deliveries;
use crate::director::Delivery;
use crate::event::ManagerError;
use crate::event::ProcessEvent;

verus! {

/// One registry entry: a process name and the control block it owns.
pub struct ProcessEntry {
    pub name: String,
    pub ctl: ProcessControl,
}

/// The registry of supervised processes.
///
/// Entries keep their insertion order; the director visits them in that
/// order. Names are unique.
pub struct ProcessManager {
    table: Vec<ProcessEntry>,
}

impl ProcessManager {
    /// The registry entries, in insertion order.
    pub closed spec fn entries(self) -> Seq<ProcessEntry> {
        self.table@
    }

    /// The registered names, in insertion order.
    pub open spec fn names(self) -> Seq<Seq<char>> {
        self.entries().map_values(|e: ProcessEntry| e.name@)
    }

    /// Whether a process of this name is registered.
    pub open spec fn contains_name(self, n: Seq<char>) -> bool {
        self.names().contains(n)
    }

    /// The index of the entry of this name (meaningful only when the name is
    /// registered; unique names make it well defined).
    pub open spec fn index_of_name(self, n: Seq<char>) -> int {
        self.names().index_of(n)
    }

    /// The control block of the named process.
    pub open spec fn control_of(self, n: Seq<char>) -> ProcessControl {
        self.entries()[self.index_of_name(n)].ctl
    }

    /// The named process's pending events, oldest first.
    pub open spec fn queue_of(self, n: Seq<char>) -> Seq<ProcessEvent> {
        self.control_of(n).pending()
    }

    /// The named process's already-delivered events, oldest first.
    pub open spec fn delivered_of(self, n: Seq<char>) -> Seq<ProcessEvent> {
        self.control_of(n).delivered()
    }

    /// Every event the named process has produced, in production order.
    pub open spec fn produced_of(self, n: Seq<char>) -> Seq<ProcessEvent> {
        self.control_of(n).produced()
    }

    /// Whether the named process has produced its terminal event.
    pub open spec fn closed_of(self, n: Seq<char>) -> bool {
        self.control_of(n).is_closed()
    }

    /// Well-formedness: names are unique and every control block is well
    /// formed.
    pub open spec fn wf(self) -> bool {
        &&& forall|i: int, j: int|
            0 <= i < j < self.entries().len() ==> (#[trigger] self.entries()[i]).name@ != (
            #[trigger] self.entries()[j]).name@
        &&& forall|i: int|
            0 <= i < self.entries().len() ==> (#[trigger] self.entries()[i]).ctl.wf()
    }

    /// With unique names, an entry whose name matches pins down
    /// `index_of_name`.
    pub proof fn lemma_index_of_name(self, n: Seq<char>, j: int)
        requires
            self.wf(),
            0 <= j < self.entries().len(),
            self.entries()[j].name@ == n,
        ensures
            self.contains_name(n),
            self.index_of_name(n) == j,
    {
        assert(self.names()[j] == n);
        assert(self.contains_name(n));
        let i = self.index_of_name(n);
        assert(0 <= i < self.names().len() && self.names()[i] == n);
        if i != j {
            if i < j {
                assert(self.entries()[i].name@ != self.entries()[j].name@);
            } else {
                assert(self.entries()[j].name@ != self.entries()[i].name@);
            }
        }
    }

    /// An empty registry.
    pub fn new() -> (m: ProcessManager)
        ensures
            m.wf(),
            m.entries().len() == 0,
    {
        ProcessManager { table: Vec::new() }
    }

    /// How many processes are registered.
    pub fn len(&self) -> (r: usize)
        ensures
            r == self.entries().len(),
    {
        self.table.len()
    }

    /// The position of the named entry, or `None` if the name is not
    /// registered.
    fn find_index(&self, name: &String) -> (r: Option<usize>)
        requires
            self.wf(),
        ensures
            match r {
                Some(j) => self.contains_name(name@) && j == self.index_of_name(name@),
                None => !self.contains_name(name@),
            },
    {
        let mut j: usize = 0;
        while j < self.table.len()
            invariant
                self.wf(),
                j <= self.table.len(),
                forall|k: int| 0 <= k < j ==> (#[trigger] self.entries()[k]).name@ != name@,
            decreases self.table.len() - j,
        {
            if self.table[j].name == *name {
                proof {
                    self.lemma_index_of_name(name@, j as int);
                }
                return Some(j);
            }
            j += 1;
        }
        proof {
            assert forall|i: int| 0 <= i < self.names().len() implies self.names()[i] != name@ by {
                assert(self.entries()[i].name@ != name@);
            }
        }
        None
    }

    /// Whether a process of this name is registered.
    pub fn contains(&self, name: &str) -> (r: bool)
        requires
            self.wf(),
        ensures
            r == self.contains_name(name@),
    {
        let key = String::from_str(name);
        self.find_index(&key).is_some()
    }

    /// Register a new process under `name`, with a fresh control block.
    ///
    /// Succeeds exactly when the name is free. On a name collision nothing
    /// is changed and `NameInUse` is returned: in particular the process
    /// already registered under the name is left untouched.
    pub fn register(&mut self, name: String) -> (r: Result<(), ManagerError>)
        requires
            old(self).wf(),
        ensures
            final(self).wf(),
            r is Ok <==> !old(self).contains_name(name@),
            r is Err ==> r == Err::<(), ManagerError>(ManagerError::NameInUse) && *final(self)
                == *old(self),
            r is Ok ==> {
                &&& final(self).entries().len() == old(self).entries().len() + 1
                &&& final(self).names() == old(self).names().push(name@)
                &&& forall|i: int|
                    0 <= i < old(self).entries().len() ==> final(self).entries()[i] == old(self).entries()[i]
                &&& final(self).contains_name(name@)
                &&& final(self).index_of_name(name@) == old(self).entries().len()
                &&& final(self).queue_of(name@) == Seq::<ProcessEvent>::empty()
                &&& final(self).delivered_of(name@) == Seq::<ProcessEvent>::empty()
                &&& !final(self).closed_of(name@)
            },
    {
        let ghost n = name@;
        match self.find_index(&name) {
            Some(_) => Err(ManagerError::NameInUse),
            None => {
                let ghost len0 = self.entries().len() as int;
                let entry = ProcessEntry { name, ctl: ProcessControl::new() };
                self.table.push(entry);
                proof {
                    assert forall|i: int|
                        0 <= i < self.names().len() - 1 implies self.names()[i] != n by {
                        assert(self.entries()[i] == old(self).entries()[i]);
                        if self.names()[i] == n {
                            assert(old(self).names()[i] == n);
                        }
                    }
                    assert(self.names() =~= old(self).names().push(n));
                    assert forall|i: int, j2: int|
                        0 <= i < j2 < self.entries().len() implies (#[trigger] self.entries()[i]).name@
                        != (#[trigger] self.entries()[j2]).name@ by {
                        assert(self.entries()[i] == old(self).entries()[i]);
                        if j2 < len0 {
                            assert(self.entries()[j2] == old(self).entries()[j2]);
                        } else {
                            assert(self.names()[i] != n);
                        }
                    }
                    assert forall|i: int|
                        0 <= i < self.entries().len() implies (#[trigger] self.entries()[i]).ctl.wf() by {
                        if i < len0 {
                            assert(self.entries()[i] == old(self).entries()[i]);
                        }
                    }
                    self.lemma_index_of_name(n, len0);
                }
                Ok(())
            },
        }
    }

    /// Remove the entry at a known position, returning it.
    ///
    /// This is the registry-internal removal that both the explicit stop and
    /// the director's cleanup go through.
    fn remove_at(&mut self, j: usize) -> (e: ProcessEntry)
        requires
            old(self).wf(),
            j < old(self).entries().len(),
        ensures
            final(self).wf(),
            e == old(self).entries()[j as int],
            final(self).entries() == old(self).entries().remove(j as int),
            final(self).names() == old(self).names().remove(j as int),
            !final(self).contains_name(old(self).entries()[j as int].name@),
            forall|n2: Seq<char>|
                n2 != old(self).entries()[j as int].name@ ==> (#[trigger] final(self).contains_name(n2) <==> old(self).contains_name(n2)),
            forall|n2: Seq<char>|
                n2 != old(self).entries()[j as int].name@ && old(self).contains_name(n2)
                    ==> #[trigger] final(self).control_of(n2) == old(self).control_of(n2),
    {
        let ghost n = old(self).entries()[j as int].name@;
        let e = self.table.remove(j);
        proof {
            assert(self.names() =~= old(self).names().remove(j as int));
            assert forall|i: int| 0 <= i < self.names().len() implies self.names()[i] != n by {
                if i < j {
                    assert(self.entries()[i] == old(self).entries()[i]);
                } else {
                    assert(self.entries()[i] == old(self).entries()[i + 1]);
                }
            }
            assert forall|n2: Seq<char>|
                n2 != n && old(self).contains_name(n2) implies self.contains_name(n2)
                && #[trigger] self.control_of(n2) == old(self).control_of(n2) by {
                let i = old(self).index_of_name(n2);
                assert(old(self).names()[i] == n2);
                if i < j {
                    assert(self.entries()[i] == old(self).entries()[i]);
                    self.lemma_index_of_name(n2, i);
                } else {
                    assert(i != j);
                    assert(self.entries()[i - 1] == old(self).entries()[i]);
                    self.lemma_index_of_name(n2, i - 1);
                }
                old(self).lemma_index_of_name(n2, i);
            }
            assert forall|n2: Seq<char>|
                n2 != n implies (#[trigger] self.contains_name(n2) <==> old(self).contains_name(
                n2,
            )) by {
                if self.contains_name(n2) {
                    let i = choose|i: int|
                        0 <= i < self.names().len() && self.names()[i] == n2;
                    if i < j {
                        assert(old(self).names()[i] == n2);
                    } else {
                        assert(old(self).names()[i + 1] == n2);
                    }
                }
                if old(self).contains_name(n2) {
                    let i = choose|i: int|
                        0 <= i < old(self).names().len() && old(self).names()[i] == n2;
                    if i < j {
                        assert(self.names()[i] == n2);
                    } else {
                        assert(i != j);
                        assert(self.names()[i - 1] == n2);
                    }
                }
            }
        }
        e
    }

    /// End supervision of the named process: remove its entry from the
    /// registry. Succeeds exactly when the name is registered; a second stop
    /// for the same name finds nothing and reports `ProcessUnknown`. The
    /// caller is expected to terminate the underlying operating-system
    /// process on success.
    pub fn stop_process(&mut self, name: &str) -> (r: Result<(), ManagerError>)
        requires
            old(self).wf(),
        ensures
            final(self).wf(),
            r is Ok <==> old(self).contains_name(name@),
            r is Err ==> r == Err::<(), ManagerError>(ManagerError::ProcessUnknown) && *final(self)
                == *old(self),
            r is Ok ==> {
                &&& final(self).entries() == old(self).entries().remove(
                    old(self).index_of_name(name@),
                )
                &&& final(self).names() == old(self).names().remove(old(self).index_of_name(name@))
                &&& !final(self).contains_name(name@)
            },
            forall|n2: Seq<char>|
                n2 != name@ ==> (#[trigger] final(self).contains_name(n2) <==> old(self).contains_name(n2)),
            forall|n2: Seq<char>|
                n2 != name@ && old(self).contains_name(n2) ==> #[trigger] final(self).control_of(n2)
                    == old(self).control_of(n2),
    {
        let key = String::from_str(name);
        match self.find_index(&key) {
            None => Err(ManagerError::ProcessUnknown),
            Some(j) => {
                let _ = self.remove_at(j);
                Ok(())
            },
        }
    }

    /// Append one produced event to the named process's queue.
    ///
    /// The process loop (or the caller's interception hook) hands every
    /// event it wants delivered through here. Fails with `ProcessUnknown`
    /// when the name is no longer registered, which is how a process loop
    /// learns that its process was stopped.
    pub fn enqueue_event(&mut self, name: &str, ev: ProcessEvent) -> (r: Result<
        (),
        ManagerError,
    >)
        requires
            old(self).wf(),
            ev.wf(),
            old(self).contains_name(name@) ==> !old(self).closed_of(name@),
        ensures
            final(self).wf(),
            r is Ok <==> old(self).contains_name(name@),
            r is Err ==> r == Err::<(), ManagerError>(ManagerError::ProcessUnknown) && *final(self)
                == *old(self),
            final(self).names() == old(self).names(),
            r is Ok ==> {
                &&& final(self).queue_of(name@) == old(self).queue_of(name@).push(ev)
                &&& final(self).delivered_of(name@) == old(self).delivered_of(name@)
                &&& final(self).closed_of(name@) == ev.terminal()
            },
            forall|n2: Seq<char>|
                n2 != name@ && old(self).contains_name(n2) ==> #[trigger] final(self).control_of(n2)
                    == old(self).control_of(n2),
    {
        let key = String::from_str(name);
        match self.find_index(&key) {
            None => Err(ManagerError::ProcessUnknown),
            Some(j) => {
                let ghost n = name@;
                let mut e = self.table.remove(j);
                proof {
                    old(self).lemma_index_of_name(n, j as int);
                }
                e.ctl.enqueue(ev);
                self.table.insert(j, e);
                proof {
                    assert(self.entries() =~= old(self).entries().update(
                        j as int,
                        self.entries()[j as int],
                    ));
                    assert(self.names() =~= old(self).names());
                    self.lemma_index_of_name(n, j as int);
                    assert forall|n2: Seq<char>|
                        n2 != n && old(self).contains_name(n2) implies #[trigger] self.control_of(
                        n2,
                    ) == old(self).control_of(n2) by {
                        let i = old(self).index_of_name(n2);
                        old(self).lemma_index_of_name(n2, i);
                        assert(i != j);
                        assert(self.entries()[i] == old(self).entries()[i]);
                        self.lemma_index_of_name(n2, i);
                    }
                }
                Ok(())
            },
        }
    }
}

impl ProcessManager {
    /// Whether the named process has already produced its terminal event,
    /// or `None` when the name is not registered. The process loop consults
    /// this before handing over further events.
    pub fn is_queue_closed(&self, name: &str) -> (r: Option<bool>)
        requires
            self.wf(),
        ensures
            match r {
                Some(b) => self.contains_name(name@) && b == self.closed_of(name@),
                None => !self.contains_name(name@),
            },
    {
        let key = String::from_str(name);
        match self.find_index(&key) {
            None => None,
            Some(j) => Some(self.table[j].ctl.queue_closed()),
        }
    }

    /// Whether the director is done: supervision ends exactly when the
    /// registry is empty, and only then.
    pub fn director_done(&self) -> (r: bool)
        ensures
            r <==> self.entries().len() == 0,
    {
        self.table.len() == 0
    }

    /// One visitation pass of the director: visit every entry in order and
    /// dequeue at most one pending event from each, returning the delivered
    /// events in visitation order. No entry is added or removed, and each
    /// process's produced events are untouched: only their delivered/pending
    /// split moves.
    pub fn director_pass(&mut self) -> (evs: Vec<Delivery>)
        requires
            old(self).wf(),
        ensures
            final(self).wf(),
            final(self).names() == old(self).names(),
            final(self).entries().len() == old(self).entries().len(),
            evs@.map_values(|d: Delivery| d.view_pair()) == pass_deliveries(old(self).entries()),
            forall|i: int|
                0 <= i < old(self).entries().len() ==> {
                    let e0 = #[trigger] old(self).entries()[i];
                    let e1 = final(self).entries()[i];
                    &&& e1.name == e0.name
                    &&& e1.ctl.produced() == e0.ctl.produced()
                    &&& e1.ctl.is_closed() == e0.ctl.is_closed()
                    &&& (e0.ctl.pending().len() == 0 ==> e1 == e0)
                    &&& (e0.ctl.pending().len() > 0 ==> e1.ctl.pending() == e0.ctl.pending().drop_first()
                        && e1.ctl.delivered() == e0.ctl.delivered().push(e0.ctl.pending()[0]))
                },
    {
        let ghost orig = self.table@;
        let mut out: Vec<ProcessEntry> = Vec::new();
        let mut evs: Vec<Delivery> = Vec::new();
        proof {
            assert(orig.skip(0) =~= orig);
        }
        while self.table.len() > 0
            invariant
                out@.len() + self.table@.len() == orig.len(),
                self.table@ == orig.skip(out@.len() as int),
                forall|i: int| 0 <= i < orig.len() ==> (#[trigger] orig[i]).ctl.wf(),
                evs@.map_values(|d: Delivery| d.view_pair()) == pass_deliveries(
                    orig.take(out@.len() as int),
                ),
                forall|i: int|
                    0 <= i < out@.len() ==> {
                        let e0 = #[trigger] orig[i];
                        let e1 = out@[i];
                        &&& e1.name == e0.name
                        &&& e1.ctl.wf()
                        &&& e1.ctl.produced() == e0.ctl.produced()
                        &&& e1.ctl.is_closed() == e0.ctl.is_closed()
                        &&& (e0.ctl.pending().len() == 0 ==> e1 == e0)
                        &&& (e0.ctl.pending().len() > 0 ==> e1.ctl.pending()
                            == e0.ctl.pending().drop_first() && e1.ctl.delivered()
                            == e0.ctl.delivered().push(e0.ctl.pending()[0]))
                    },
            decreases self.table@.len(),
        {
            let ghost k = out@.len() as int;
            let mut e = self.table.remove(0);
            proof {
                assert(e == orig[k]);
                assert(self.table@ =~= orig.skip(k + 1));
            }
            let d = e.ctl.dequeue();
            match d {
                Some(ev) => {
                    let nm = e.name.clone();
                    evs.push(Delivery { name: nm, event: ev });
                },
                None => {},
            }
            out.push(e);
            proof {
                assert(orig.take(k + 1).drop_last() =~= orig.take(k));
                assert(orig.take(k + 1).last() == orig[k]);
                assert(evs@.map_values(|d2: Delivery| d2.view_pair()) =~= pass_deliveries(
                    orig.take(k + 1),
                ));
            }
        }
        self.table = out;
        proof {
            assert(orig.take(orig.len() as int) =~= orig);
            assert(self.names() =~= old(self).names());
            assert forall|i: int, j2: int|
                0 <= i < j2 < self.entries().len() implies (#[trigger] self.entries()[i]).name@ != (
            #[trigger] self.entries()[j2]).name@ by {
                assert(self.entries()[i].name == old(self).entries()[i].name);
                assert(self.entries()[j2].name == old(self).entries()[j2].name);
                assert(old(self).entries()[i].name@ != old(self).entries()[j2].name@);
            }
            assert forall|i: int|
                0 <= i < self.entries().len() implies (#[trigger] self.entries()[i]).ctl.wf() by {
                let e0 = orig[i];
                assert(out@[i].ctl.wf());
                assert(self.entries()[i] == out@[i]);
            }
        }
        evs
    }

    /// Remove every entry whose name stands in `gone`; names not registered
    /// are passed over. The director performs this after a visitation pass,
    /// with the names the handler marked; every surviving process keeps its
    /// control block unchanged.
    pub fn remove_names(&mut self, gone: &Vec<String>)
        requires
            old(self).wf(),
        ensures
            final(self).wf(),
            forall|n2: Seq<char>| #[trigger]
                final(self).contains_name(n2) <==> (old(self).contains_name(n2) && !name_views(
                    gone@,
                ).contains(n2)),
            forall|n2: Seq<char>|
                final(self).contains_name(n2) ==> #[trigger] final(self).control_of(n2) == old(
                    self,
                ).control_of(n2),
    {
        let ghost gv = name_views(gone@);
        let ghost m0 = *self;
        let mut i: usize = 0;
        proof {
            assert(gv.take(0) =~= Seq::<Seq<char>>::empty());
        }
        while i < gone.len()
            invariant
                self.wf(),
                i <= gone.len(),
                gv == name_views(gone@),
                m0.wf(),
                forall|n2: Seq<char>| #[trigger]
                    self.contains_name(n2) <==> (m0.contains_name(n2) && !gv.take(
                        i as int,
                    ).contains(n2)),
                forall|n2: Seq<char>|
                    self.contains_name(n2) ==> #[trigger] self.control_of(n2) == m0.control_of(n2),
            decreases gone.len() - i,
        {
            let ghost pre = *self;
            match self.find_index(&gone[i]) {
                Some(j) => {
                    proof {
                        assert(pre.names()[j as int] == gv[i as int]);
                    }
                    let _ = self.remove_at(j);
                },
                None => {},
            }
            proof {
                assert(gv.take(i as int + 1) =~= gv.take(i as int).push(gv[i as int]));
                assert forall|n2: Seq<char>| #[trigger]
                    gv.take(i as int + 1).contains(n2) <==> (gv.take(i as int).contains(n2) || n2
                    == gv[i as int]) by {
                    if gv.take(i as int + 1).contains(n2) {
                        let w = choose|w: int|
                            0 <= w < gv.take(i as int + 1).len() && #[trigger] gv.take(
                                i as int + 1,
                            )[w] == n2;
                        if w < i {
                            assert(gv.take(i as int)[w] == n2);
                        }
                    }
                    if gv.take(i as int).contains(n2) {
                        let w = choose|w: int|
                            0 <= w < gv.take(i as int).len() && #[trigger] gv.take(i as int)[w]
                                == n2;
                        assert(gv.take(i as int + 1)[w] == n2);
                    }
                    if n2 == gv[i as int] {
                        assert(gv.take(i as int + 1)[i as int] == n2);
                    }
                }
            }
            i += 1;
        }
        proof {
            assert(gv.take(gone@.len() as int) =~= gv);
        }
    }

    /// One tick of the director loop under the default pass-through policy:
    /// report that supervision is over when the registry is empty; otherwise
    /// perform one visitation pass - delivering the front event of every
    /// nonempty queue - and remove every process whose delivered event was
    /// `Exited`.
    pub fn director_tick_default(&mut self) -> (done: bool)
        requires
            old(self).wf(),
        ensures
            final(self).wf(),
            done <==> old(self).entries().len() == 0,
            done ==> *final(self) == *old(self),
            !done ==> forall|n2: Seq<char>| #[trigger]
                final(self).contains_name(n2) <==> (old(self).contains_name(n2) && !exited_in(
                    pass_deliveries(old(self).entries()),
                    n2,
                )),
            !done ==> forall|n2: Seq<char>| #[trigger]
                final(self).contains_name(n2) ==> {
                    let c0 = old(self).control_of(n2);
                    let c1 = final(self).control_of(n2);
                    &&& c1.produced() == c0.produced()
                    &&& c1.is_closed() == c0.is_closed()
                    &&& (c0.pending().len() == 0 ==> c1 == c0)
                    &&& (c0.pending().len() > 0 ==> c1.pending() == c0.pending().drop_first()
                        && c1.delivered() == c0.delivered().push(c0.pending()[0]))
                },
    {
        if self.director_done() {
            return true;
        }
        let evs = self.director_pass();
        let ghost mid = *self;
        let marks = exited_names(&evs);
        self.remove_names(&marks);
        proof {
            assert forall|n2: Seq<char>| #[trigger]
                self.contains_name(n2) <==> (old(self).contains_name(n2) && !exited_in(
                pass_deliveries(old(self).entries()),
                n2,
            )) by {
                assert(mid.contains_name(n2) == old(self).contains_name(n2));
            }
            assert forall|n2: Seq<char>| #[trigger]
                self.contains_name(n2) implies mid.contains_name(n2) && old(self).contains_name(n2)
                && mid.control_of(n2) == self.control_of(n2) && {
                let c0 = old(self).control_of(n2);
                let c1 = mid.control_of(n2);
                &&& c1.produced() == c0.produced()
                &&& c1.is_closed() == c0.is_closed()
                &&& (c0.pending().len() == 0 ==> c1 == c0)
                &&& (c0.pending().len() > 0 ==> c1.pending() == c0.pending().drop_first()
                    && c1.delivered() == c0.delivered().push(c0.pending()[0]))
            } by {
                let i = old(self).index_of_name(n2);
                assert(0 <= i < old(self).names().len() && old(self).names()[i] == n2);
                old(self).lemma_index_of_name(n2, i);
                assert(mid.entries()[i].name == old(self).entries()[i].name);
                mid.lemma_index_of_name(n2, i);
            }
        }
        false
    }
}

impl Default for ProcessManager {
    /// An empty registry.
    fn default() -> (m: Self)
        ensures
            m.wf(),
            m.entries().len() == 0,
    {
        ProcessManager::new()
    }
}

/// Law: for a fresh name, registering and then stopping succeeds once, and a
/// second stop for the same name finds nothing.
///
/// `names0.push(n)` is the registered-names sequence after a successful
/// `register` (its postcondition), and removing the name's entry is what a
/// successful `stop_process` leaves behind; the name is present for the
/// first stop and absent for the second.
pub proof fn lemma_register_then_stop_twice(names0: Seq<Seq<char>>, n: Seq<char>)
    requires
        !names0.contains(n),
    ensures
        ({
            let names1 = names0.push(n);
            let names2 = names1.remove(names1.index_of(n));
            &&& names1.contains(n)
            &&& !names2.contains(n)
        }),
{
    let names1 = names0.push(n);
    let len0 = names0.len() as int;
    assert(names1[len0] == n);
    assert(names1.contains(n));
    let i = names1.index_of(n);
    assert(0 <= i < names1.len() && names1[i] == n);
    if i < len0 {
        assert(names0[i] == n);
        assert(names0.contains(n));
    }
    assert(i == len0);
    let names2 = names1.remove(i);
    assert(names2 =~= names0);
}

/// Law: for every registered process, the events delivered to the director
/// are exactly the first delivered-count events produced, in production
/// order, and no produced event other than the last is terminal.
pub proof fn lemma_delivery_order_of(m: ProcessManager, n: Seq<char>)
    requires
        m.wf(),
        m.contains_name(n),
    ensures
        m.delivered_of(n) == m.produced_of(n).take(m.delivered_of(n).len() as int),
        forall|i: int|
            0 <= i < m.produced_of(n).len() - 1 ==> !(#[trigger] m.produced_of(n)[i]).terminal(),
{
    let j = m.index_of_name(n);
    assert(0 <= j < m.names().len() && m.names()[j] == n);
    assert(m.entries()[j].ctl.wf());
    crate::control::lemma_delivery_order(m.control_of(n));
}

/// Law: no produced output event of a well-formed registry ever reports a
/// length above the bounded chunk size.
pub proof fn lemma_output_length_bounded(m: ProcessManager, n: Seq<char>, i: int)
    requires
        m.wf(),
        m.contains_name(n),
        0 <= i < m.produced_of(n).len(),
    ensures
        m.produced_of(n)[i] matches ProcessEvent::Output(h, bytes, len) ==> len
            <= crate::event::MAX_LINE,
{
    let j = m.index_of_name(n);
    assert(0 <= j < m.names().len() && m.names()[j] == n);
    assert(m.entries()[j].ctl.wf());
    assert(m.produced_of(n)[i].wf());
}

} // verus!
