//! Timer queue: scheduled deadlines in tick units, polled against the tick
//! counter.

use vstd::prelude::*;

verus! {

/// Identifier of a scheduled timer.
#[derive(Clone, Copy, Debug, PartialEq, Eq, PartialOrd, Ord, Structural)]
pub struct TimerId(pub u64);

/// Timer service interface.
pub trait TimerService {
    fn schedule(&mut self, deadline_ticks: u64) -> TimerId;

    fn cancel(&mut self, id: TimerId) -> bool;

    fn poll(&mut self, current_ticks: u64) -> Vec<TimerId>;
}

/// The timers of `s` that are due at `now`, in stored order.
pub open spec fn spec_due(timers: Seq<(u64, u64)>, now: u64) -> Seq<(u64, u64)>
    decreases timers.len(),
{
    if timers.len() == 0 {
        Seq::empty()
    } else {
        (if timers.first().1 <= now {
            seq![timers.first()]
        } else {
            Seq::empty()
        }) + spec_due(timers.drop_first(), now)
    }
}

/// The timers of `s` still pending past `now`, in stored order.
pub open spec fn spec_pending(timers: Seq<(u64, u64)>, now: u64) -> Seq<(u64, u64)>
    decreases timers.len(),
{
    if timers.len() == 0 {
        Seq::empty()
    } else {
        (if timers.first().1 > now {
            seq![timers.first()]
        } else {
            Seq::empty()
        }) + spec_pending(timers.drop_first(), now)
    }
}

/// The timers of `s` other than the one with id `id`, in stored order.
pub open spec fn spec_without_id(timers: Seq<(u64, u64)>, id: u64) -> Seq<(u64, u64)>
    decreases timers.len(),
{
    if timers.len() == 0 {
        Seq::empty()
    } else {
        (if timers.first().0 == id {
            Seq::empty()
        } else {
            seq![timers.first()]
        }) + spec_without_id(timers.drop_first(), id)
    }
}

/// Timer queue: (id, deadline) pairs in scheduling order; ids count up.
pub struct TimerQueue {
    next_id: u64,
    timers: Vec<(u64, u64)>,
}

impl TimerQueue {
    /// The scheduled (id, deadline) pairs, in scheduling order.
    pub closed spec fn spec_timers(&self) -> Seq<(u64, u64)> {
        self.timers@
    }

    /// The id the next schedule will return.
    pub closed spec fn spec_next_id(&self) -> u64 {
        self.next_id
    }

    /// Ids start at one.
    pub closed spec fn wf(&self) -> bool {
        self.next_id >= 1
    }

    /// Creates an empty queue; ids start at one.
    pub fn new() -> (r: TimerQueue)
        ensures
            r.wf(),
            r.spec_timers() == Seq::<(u64, u64)>::empty(),
            r.spec_next_id() == 1,
    {
        TimerQueue { next_id: 1, timers: Vec::new() }
    }

    /// Schedules a timer for `deadline_ticks` and returns its fresh id.
    pub fn schedule(&mut self, deadline_ticks: u64) -> (id: TimerId)
        requires
            old(self).wf(),
        ensures
            final(self).wf(),
            id == TimerId(old(self).spec_next_id()),
            final(self).spec_timers() == old(self).spec_timers().push(
                (old(self).spec_next_id(), deadline_ticks),
            ),
    {
        let id = TimerId(self.next_id);
        let bumped = self.next_id.wrapping_add(1);
        self.next_id = if bumped >= 1 {
            bumped
        } else {
            1
        };
        self.timers.push((id.0, deadline_ticks));
        id
    }

    /// Cancels a timer: `true` exactly when the id was scheduled; its
    /// entry leaves the queue, every other timer stays, in order.
    pub fn cancel(&mut self, id: TimerId) -> (r: bool)
        requires
            old(self).wf(),
        ensures
            final(self).wf(),
            final(self).spec_next_id() == old(self).spec_next_id(),
            final(self).spec_timers() == spec_without_id(old(self).spec_timers(), id.0),
            r == (exists|i: int|
                0 <= i < old(self).spec_timers().len() && (#[trigger] old(self).spec_timers()[i]).0
                    == id.0),
    {
        let ghost whole = self.timers@;
        let mut kept: Vec<(u64, u64)> = Vec::new();
        let mut hit = false;
        let mut i: usize = 0;
        proof {
            assert(whole.skip(0) =~= whole);
            assert(spec_without_id(whole, id.0) =~= kept@ + spec_without_id(whole, id.0));
        }
        while i < self.timers.len()
            invariant
                self.timers@ == old(self).spec_timers(),
                whole == self.timers@,
                i <= whole.len(),
                spec_without_id(whole, id.0) =~= kept@ + spec_without_id(
                    whole.skip(i as int),
                    id.0,
                ),
                hit == (exists|j: int|
                    0 <= j < i && (#[trigger] old(self).spec_timers()[j]).0 == id.0),
            decreases whole.len() - i,
        {
            let t = self.timers[i];
            proof {
                assert(whole.skip(i as int).first() == whole[i as int]);
                assert(whole.skip(i as int).drop_first() =~= whole.skip(i + 1));
            }
            if t.0 == id.0 {
                hit = true;
            } else {
                kept.push(t);
            }
            i += 1;
        }
        proof {
            assert(whole.skip(whole.len() as int) =~= Seq::<(u64, u64)>::empty());
            assert(spec_without_id(Seq::<(u64, u64)>::empty(), id.0) =~= Seq::<(u64, u64)>::empty());
            assert(kept@ =~= spec_without_id(whole, id.0));
        }
        self.timers = kept;
        hit
    }

    /// Polls the queue: every timer due at `current_ticks` leaves the
    /// queue and its id is handed back, in scheduling order; the rest stay,
    /// in order.
    pub fn poll(&mut self, current_ticks: u64) -> (fired: Vec<TimerId>)
        requires
            old(self).wf(),
        ensures
            final(self).wf(),
            final(self).spec_next_id() == old(self).spec_next_id(),
            final(self).spec_timers() == spec_pending(old(self).spec_timers(), current_ticks),
            fired@.len() == spec_due(old(self).spec_timers(), current_ticks).len(),
            forall|i: int|
                0 <= i < fired@.len() ==> (#[trigger] fired@[i]).0 == spec_due(
                    old(self).spec_timers(),
                    current_ticks,
                )[i].0,
    {
        let ghost whole = self.timers@;
        let mut kept: Vec<(u64, u64)> = Vec::new();
        let mut fired: Vec<TimerId> = Vec::new();
        let ghost mut gdone: Seq<(u64, u64)> = Seq::empty();
        let mut i: usize = 0;
        proof {
            assert(whole.skip(0) =~= whole);
            assert(spec_due(whole, current_ticks) =~= gdone + spec_due(whole, current_ticks));
            assert(spec_pending(whole, current_ticks) =~= kept@ + spec_pending(
                whole,
                current_ticks,
            ));
        }
        while i < self.timers.len()
            invariant
                i <= self.timers@.len(),
                whole == self.timers@,
                spec_due(whole, current_ticks) =~= gdone + spec_due(
                    whole.skip(i as int),
                    current_ticks,
                ),
                spec_pending(whole, current_ticks) =~= kept@ + spec_pending(
                    whole.skip(i as int),
                    current_ticks,
                ),
                fired@.len() == gdone.len(),
                forall|k: int| 0 <= k < fired@.len() ==> (#[trigger] fired@[k]).0 == gdone[k].0,
            decreases self.timers@.len() - i,
        {
            let t = self.timers[i];
            proof {
                assert(whole.skip(i as int).first() == whole[i as int]);
                assert(whole.skip(i as int).drop_first() =~= whole.skip(i + 1));
            }
            if t.1 <= current_ticks {
                fired.push(TimerId(t.0));
                proof {
                    gdone = gdone.push(t);
                }
            } else {
                kept.push(t);
            }
            i += 1;
        }
        proof {
            assert(whole.skip(whole.len() as int) =~= Seq::<(u64, u64)>::empty());
            assert(spec_due(Seq::<(u64, u64)>::empty(), current_ticks) =~= Seq::<(u64, u64)>::empty());
            assert(spec_pending(Seq::<(u64, u64)>::empty(), current_ticks) =~= Seq::<
                (u64, u64),
            >::empty());
            assert(gdone =~= spec_due(whole, current_ticks));
            assert(kept@ =~= spec_pending(whole, current_ticks));
        }
        self.timers = kept;
        fired
    }
}

} // verus!
