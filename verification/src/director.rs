//! The director's view of one visitation pass: which event each visited
//! process handed over.
//!
//! The director loop itself - sleeping between ticks and running the
//! caller-supplied handler - lives outside the library; each tick it asks the
//! registry for one visitation pass, shows every delivered event to the
//! handler, and hands the names the handler marked back for removal.

use vstd::prelude::*;

use crate::event::ProcessEvent;
use crate::manager::ProcessEntry;

verus! {

/// One event delivered during a visitation pass, with the name of the
/// process that produced it.
pub struct Delivery {
    pub name: String,
    pub event: ProcessEvent,
}

impl Delivery {
    /// The delivery as a pair of plain values.
    pub open spec fn view_pair(self) -> (Seq<char>, ProcessEvent) {
        (self.name@, self.event)
    }
}

/// What one visitation pass over these entries delivers: the front event of
/// every entry whose queue is not empty, in entry order.
pub open spec fn pass_deliveries(es: Seq<ProcessEntry>) -> Seq<(Seq<char>, ProcessEvent)>
    decreases es.len(),
{
    if es.len() == 0 {
        Seq::empty()
    } else {
        pass_deliveries(es.drop_last()) + (if es.last().ctl.pending().len() > 0 {
            seq![(es.last().name@, es.last().ctl.pending()[0])]
        } else {
            Seq::empty()
        })
    }
}

/// Whether a pass delivered an `Exited` event for the named process. The
/// default director policy removes exactly these processes after the pass.
pub open spec fn exited_in(evs: Seq<(Seq<char>, ProcessEvent)>, n: Seq<char>) -> bool {
    exists|i: int|
        0 <= i < evs.len() && evs[i].0 == n && evs[i].1 matches ProcessEvent::Exited(_)
}

/// The views of a sequence of names.
pub open spec fn name_views(ss: Seq<String>) -> Seq<Seq<char>> {
    ss.map_values(|s: String| s@)
}

/// The names whose delivered event in this pass was `Exited`: the removal
/// marks of the default director policy.
pub fn exited_names(evs: &Vec<Delivery>) -> (r: Vec<String>)
    ensures
        forall|n2: Seq<char>| #[trigger]
            name_views(r@).contains(n2) <==> exited_in(
                evs@.map_values(|d: Delivery| d.view_pair()),
                n2,
            ),
{
    let ghost dv = evs@.map_values(|d: Delivery| d.view_pair());
    let mut r: Vec<String> = Vec::new();
    let mut i: usize = 0;
    proof {
        assert(dv.take(0) =~= Seq::<(Seq<char>, ProcessEvent)>::empty());
    }
    while i < evs.len()
        invariant
            i <= evs.len(),
            dv == evs@.map_values(|d: Delivery| d.view_pair()),
            forall|n2: Seq<char>| #[trigger]
                name_views(r@).contains(n2) <==> exited_in(dv.take(i as int), n2),
        decreases evs.len() - i,
    {
        let entry = &evs[i];
        let is_exit = matches!(&entry.event, ProcessEvent::Exited(_));
        let ghost rv0 = name_views(r@);
        if is_exit {
            r.push(entry.name.clone());
        }
        proof {
            let rv1 = name_views(r@);
            let k = i as int;
            assert(dv[k] == evs@[k].view_pair());
            if is_exit {
                assert(rv1 =~= rv0.push(evs@[k].name@));
            }
            assert forall|n2: Seq<char>| #[trigger]
                rv1.contains(n2) <==> exited_in(dv.take(k + 1), n2) by {
                if rv1.contains(n2) {
                    let w = choose|w: int| 0 <= w < rv1.len() && rv1[w] == n2;
                    if w < rv0.len() {
                        assert(rv0[w] == n2);
                        assert(rv0.contains(n2));
                        let u = choose|u: int|
                            0 <= u < dv.take(k).len() && (#[trigger] dv.take(k)[u]).0 == n2
                                && dv.take(k)[u].1 matches ProcessEvent::Exited(_);
                        assert(dv.take(k + 1)[u] == dv.take(k)[u]);
                        assert(exited_in(dv.take(k + 1), n2));
                    } else {
                        assert(n2 == evs@[k].name@);
                        assert(dv.take(k + 1)[k] == dv[k]);
                        assert(exited_in(dv.take(k + 1), n2));
                    }
                }
                if exited_in(dv.take(k + 1), n2) {
                    let u = choose|u: int|
                        0 <= u < dv.take(k + 1).len() && (#[trigger] dv.take(k + 1)[u]).0 == n2
                            && dv.take(k + 1)[u].1 matches ProcessEvent::Exited(_);
                    if u < k {
                        assert(dv.take(k)[u] == dv.take(k + 1)[u]);
                        assert(exited_in(dv.take(k), n2));
                        assert(rv0.contains(n2));
                        let w = choose|w: int| 0 <= w < rv0.len() && rv0[w] == n2;
                        assert(rv1[w] == n2);
                    } else {
                        assert(dv[k].0 == n2);
                        assert(rv1[rv1.len() - 1] == n2);
                    }
                }
            }
        }
        i += 1;
    }
    proof {
        assert(dv.take(evs@.len() as int) =~= dv);
    }
    r
}

} // verus!
