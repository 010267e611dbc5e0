//! The bookkeeping of timers: which timers were set, under which ids, and
//! which were cancelled. Ids come from a process-wide counter, and waiting
//! and calling back happen outside.
use vstd::prelude::*;

verus! {

/// One timer: its id and whether it was cancelled.
pub struct TimerEntry {
    pub id: u64,
    pub cancelled: bool,
}

/// The timers set so far.
pub struct TimerManager {
    timers: Vec<TimerEntry>,
}

/// The first index at or after `i` of the timer `id`, or -1.
pub open spec fn timer_index(s: Seq<(u64, bool)>, id: u64, i: int) -> int
    decreases s.len() - i,
{
    if i < 0 || i >= s.len() {
        -1
    } else if s[i].0 == id {
        i
    } else {
        timer_index(s, id, i + 1)
    }
}

impl TimerManager {
    /// The timers as (id, cancelled), in the order they were set.
    pub closed spec fn entries(&self) -> Seq<(u64, bool)> {
        self.timers@.map_values(|e: TimerEntry| (e.id, e.cancelled))
    }

    /// No timers.
    pub fn new() -> (m: TimerManager)
        ensures
            m.entries().len() == 0,
    {
        let m = TimerManager { timers: Vec::new() };
        proof {
            assert(m.entries() =~= Seq::<(u64, bool)>::empty());
        }
        m
    }

    /// Records a timer set under `id` (`setTimeout` and `setInterval` alike);
    /// it is not cancelled.
    pub fn set_timer(&mut self, id: u64)
        ensures
            final(self).entries() == old(self).entries().push((id, false)),
    {
        let ghost before = self.timers@;
        self.timers.push(TimerEntry { id, cancelled: false });
        proof {
            assert(self.entries() =~= before.map_values(|e: TimerEntry| (e.id, e.cancelled)).push(
                (id, false),
            ));
        }
    }

    /// Marks the first timer with this id cancelled; nothing else changes.
    pub fn clear_timeout(&mut self, id: u64)
        ensures
            ({
                let k = timer_index(old(self).entries(), id, 0);
                if k >= 0 {
                    final(self).entries() == old(self).entries().update(k, (id, true))
                } else {
                    final(self).entries() == old(self).entries()
                }
            }),
    {
        let ghost old_e = self.entries();
        let mut i: usize = 0;
        while i < self.timers.len()
            invariant
                i <= self.timers@.len(),
                self.entries() == old_e,
                old_e == old(self).entries(),
                timer_index(old_e, id, 0) == timer_index(old_e, id, i as int),
            decreases self.timers@.len() - i,
        {
            if self.timers[i].id == id {
                self.timers.set(i, TimerEntry { id, cancelled: true });
                proof {
                    assert(self.entries() =~= old_e.update(i as int, (id, true)));
                }
                return;
            }
            i = i + 1;
        }
    }

    /// The same as `clear_timeout`.
    pub fn clear_interval(&mut self, id: u64)
        ensures
            ({
                let k = timer_index(old(self).entries(), id, 0);
                if k >= 0 {
                    final(self).entries() == old(self).entries().update(k, (id, true))
                } else {
                    final(self).entries() == old(self).entries()
                }
            }),
    {
        self.clear_timeout(id)
    }

    /// Forgets every timer.
    pub fn clear_all(&mut self)
        ensures
            final(self).entries().len() == 0,
    {
        self.timers = Vec::new();
        proof {
            assert(self.entries() =~= Seq::<(u64, bool)>::empty());
        }
    }
}

impl Default for TimerManager {
    fn default() -> (m: Self)
        ensures
            m.entries().len() == 0,
    {
        Self::new()
    }
}

} // verus!
