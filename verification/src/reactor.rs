//! The timer reactor: the registry of pending one-shot timers and the source
//! of all progress in the runtime.
//!
//! The reactor keeps a virtual clock in milliseconds. `wait` selects the
//! pending timer with the earliest deadline (ties broken by registration
//! order), advances the clock to that deadline, removes the timer and reports
//! which task its wake notification is aimed at.

use vstd::prelude::*;

verus! {

/// Identifier of one timer registration. Identifiers are minted monotonically
/// by the reactor and are never reused while the reactor lives.
#[derive(Copy, Clone, Debug, PartialEq, Eq, Structural)]
pub struct EventId(pub u64);

/// A wake notification: which timer fired, and the index of the task that the
/// wake is aimed at. The task index is carried inside the notification itself,
/// so no shared mailbox is needed to recover the wake's target.
#[derive(Copy, Clone, Debug, PartialEq, Eq, Structural)]
pub struct Wait {
    pub event_id: EventId,
    pub task: usize,
}

impl Wait {
    pub fn new(event_id: EventId, task: usize) -> (w: Wait)
        ensures
            w.event_id == event_id,
            w.task == task,
    {
        Wait { event_id, task }
    }
}

/// One pending one-shot timer: its identifier, its absolute deadline on the
/// virtual clock, and the task its wake notification is aimed at.
#[derive(Copy, Clone, Debug, PartialEq, Eq, Structural)]
pub struct Timer {
    pub event_id: EventId,
    pub awake_on: u64,
    pub task: usize,
}

impl Timer {
    pub fn new(event_id: EventId, task: usize, awake_on: u64) -> (t: Timer)
        ensures
            t.event_id == event_id,
            t.task == task,
            t.awake_on == awake_on,
    {
        Timer { event_id, task, awake_on }
    }
}

/// The reactor state proper. On a single thread, exclusive access is
/// enforced by `&mut` alone; no interior-mutability cell is needed.
pub struct ReactorInner {
    pub timers: Vec<Timer>,
    pub last_event_id: u64,
    pub now_ms: u64,
}

impl ReactorInner {
    /// No two pending timers share an identifier.
    pub open spec fn ids_unique(self) -> bool {
        forall|i: int, j: int|
            0 <= i < j < self.timers@.len() ==> (#[trigger] self.timers@[i]).event_id != (
            #[trigger] self.timers@[j]).event_id
    }

    /// Every pending identifier was minted by the monotone counter.
    pub open spec fn ids_minted(self) -> bool {
        forall|i: int|
            0 <= i < self.timers@.len() ==> 0 < (#[trigger] self.timers@[i]).event_id.0
                <= self.last_event_id
    }

    pub open spec fn wf(self) -> bool {
        self.ids_unique() && self.ids_minted()
    }

    /// Some pending timer carries this identifier.
    pub open spec fn has_timer(self, event_id: EventId) -> bool {
        exists|i: int|
            0 <= i < self.timers@.len() && (#[trigger] self.timers@[i]).event_id == event_id
    }

    /// The deadline of a timer registered now for `duration` milliseconds,
    /// saturating at the top of the clock.
    pub open spec fn deadline_for(now: u64, duration: u64) -> u64 {
        if now + duration > u64::MAX {
            u64::MAX
        } else {
            (now + duration) as u64
        }
    }

    /// Index `i` holds the earliest deadline, and is the first index to do so.
    pub open spec fn is_first_min(s: Seq<Timer>, i: int) -> bool {
        &&& 0 <= i < s.len()
        &&& forall|j: int| 0 <= j < s.len() ==> s[i].awake_on <= (#[trigger] s[j]).awake_on
        &&& forall|j: int| 0 <= j < i ==> s[i].awake_on < (#[trigger] s[j]).awake_on
    }

    /// Only one index can be the first minimum.
    pub proof fn lemma_first_min_unique(s: Seq<Timer>, i: int, j: int)
        requires
            ReactorInner::is_first_min(s, i),
            ReactorInner::is_first_min(s, j),
        ensures
            i == j,
    {
        if i < j {
            assert(s[j].awake_on < s[i].awake_on);
            assert(s[i].awake_on <= s[j].awake_on);
        }
        if j < i {
            assert(s[i].awake_on < s[j].awake_on);
            assert(s[j].awake_on <= s[i].awake_on);
        }
    }

    pub fn new() -> (r: ReactorInner)
        ensures
            r.wf(),
            r.timers@.len() == 0,
            r.last_event_id == 0,
            r.now_ms == 0,
    {
        ReactorInner { timers: Vec::new(), last_event_id: 0, now_ms: 0 }
    }

    /// Registers a one-shot timer aimed at `task`, due `duration` milliseconds
    /// from now, and mints a fresh identifier for it.
    pub fn add_timer(&mut self, task: usize, duration: u64) -> (r: EventId)
        requires
            old(self).wf(),
            old(self).last_event_id < u64::MAX,
        ensures
            final(self).wf(),
            r.0 == old(self).last_event_id + 1,
            final(self).last_event_id == r.0,
            final(self).now_ms == old(self).now_ms,
            final(self).timers@ =~= old(self).timers@.push(
                (Timer {
                    event_id: r,
                    awake_on: ReactorInner::deadline_for(old(self).now_ms, duration),
                    task,
                }),
            ),
    {
        self.last_event_id = self.last_event_id + 1;
        let awake_on = if duration > u64::MAX - self.now_ms {
            u64::MAX
        } else {
            self.now_ms + duration
        };
        let id = EventId(self.last_event_id);
        self.timers.push(Timer::new(id, task, awake_on));
        id
    }

    /// Removes the pending timer that carries `event_id`. Using an identifier
    /// that is no longer pending is a usage error and is excluded up front.
    pub fn cancel_timer(&mut self, event_id: EventId)
        requires
            old(self).wf(),
            old(self).has_timer(event_id),
        ensures
            final(self).wf(),
            final(self).last_event_id == old(self).last_event_id,
            final(self).now_ms == old(self).now_ms,
            exists|i: int|
                0 <= i < old(self).timers@.len() && (#[trigger] old(self).timers@[i]).event_id
                    == event_id && final(self).timers@ =~= old(self).timers@.remove(i),
    {
        let ghost pre = *self;
        let mut i: usize = 0;
        loop
            invariant
                pre == *old(self),
                *self == pre,
                pre.wf(),
                pre.has_timer(event_id),
                i <= self.timers@.len(),
                forall|j: int| 0 <= j < i ==> (#[trigger] self.timers@[j]).event_id != event_id,
            decreases self.timers@.len() - i,
        {
            if i >= self.timers.len() {
                proof {
                    assert(false);
                }
                return ;
            }
            if self.timers[i].event_id.0 == event_id.0 {
                self.timers.remove(i);
                proof {
                    assert(pre.timers@[i as int].event_id == event_id);
                    assert(self.timers@ =~= pre.timers@.remove(i as int));
                }
                return ;
            }
            i = i + 1;
        }
    }

    /// Picks the pending timer with the earliest deadline (the first such, so
    /// ties go to the earlier registration), advances the clock to its
    /// deadline, removes it and returns its wake notification. Returns nothing
    /// when no timer is pending: the caller has no remaining source of
    /// progress.
    ///
    /// The contract names the fired timer through `is_first_min`;
    /// `lemma_first_min_unique` lets a caller pin the returned notification
    /// down to the one timer it knows to be earliest.
    pub fn wait(&mut self) -> (r: Option<Wait>)
        requires
            old(self).wf(),
        ensures
            final(self).wf(),
            final(self).last_event_id == old(self).last_event_id,
            old(self).timers@.len() == 0 ==> r is None && *final(self) == *old(self),
            old(self).timers@.len() > 0 ==> (r matches Some(w) && exists|i: int|
                {
                    &&& ReactorInner::is_first_min(old(self).timers@, i)
                    &&& w.event_id == (#[trigger] old(self).timers@[i]).event_id
                    &&& w.task == old(self).timers@[i].task
                    &&& final(self).timers@ =~= old(self).timers@.remove(i)
                    &&& final(self).now_ms == (if old(self).timers@[i].awake_on > old(self).now_ms {
                        old(self).timers@[i].awake_on
                    } else {
                        old(self).now_ms
                    })
                }),
    {
        let ghost pre = *self;
        if self.timers.len() == 0 {
            return None;
        }
        let mut best: usize = 0;
        let mut k: usize = 1;
        while k < self.timers.len()
            invariant
                *self == pre,
                0 <= best < k <= self.timers@.len(),
                forall|j: int|
                    0 <= j < k ==> self.timers@[best as int].awake_on <= (
                    #[trigger] self.timers@[j]).awake_on,
                forall|j: int|
                    0 <= j < best ==> self.timers@[best as int].awake_on < (
                    #[trigger] self.timers@[j]).awake_on,
            decreases self.timers@.len() - k,
        {
            if self.timers[k].awake_on < self.timers[best].awake_on {
                best = k;
            }
            k = k + 1;
        }
        proof {
            assert(ReactorInner::is_first_min(pre.timers@, best as int));
        }
        let t = self.timers.remove(best);
        if t.awake_on > self.now_ms {
            self.now_ms = t.awake_on;
        }
        let w = Wait::new(t.event_id, t.task);
        proof {
            assert(w.event_id == pre.timers@[best as int].event_id);
            assert(self.timers@ =~= pre.timers@.remove(best as int));
        }
        Some(w)
    }
}

/// The reactor as the runtime holds it: a thin handle around the inner
/// state. With a single thread and `&mut` discipline the inner state can be
/// a plain field; there is no cell to abort on concurrent access.
pub struct Reactor {
    pub inner: ReactorInner,
}

impl Reactor {
    pub open spec fn wf(self) -> bool {
        self.inner.wf()
    }

    pub open spec fn timers(self) -> Seq<Timer> {
        self.inner.timers@
    }

    pub open spec fn now(self) -> u64 {
        self.inner.now_ms
    }

    pub open spec fn last_id(self) -> u64 {
        self.inner.last_event_id
    }

    pub fn new() -> (r: Reactor)
        ensures
            r.wf(),
            r.timers().len() == 0,
            r.now() == 0,
            r.last_id() == 0,
    {
        Reactor { inner: ReactorInner::new() }
    }

    /// The virtual clock, in milliseconds since the reactor was created.
    pub fn now_ms(&self) -> (r: u64)
        ensures
            r == self.now(),
    {
        self.inner.now_ms
    }

    /// How many timers are pending.
    pub fn pending(&self) -> (r: usize)
        ensures
            r == self.timers().len(),
    {
        self.inner.timers.len()
    }

    /// How many timers have ever been registered.
    pub fn minted(&self) -> (r: u64)
        ensures
            r == self.last_id(),
    {
        self.inner.last_event_id
    }

    /// Registers a one-shot timer aimed at `task`; see `ReactorInner::add_timer`.
    pub fn add_timer(&mut self, task: usize, duration: u64) -> (r: EventId)
        requires
            old(self).wf(),
            old(self).last_id() < u64::MAX,
        ensures
            final(self).wf(),
            r.0 == old(self).last_id() + 1,
            final(self).last_id() == r.0,
            final(self).now() == old(self).now(),
            final(self).timers() =~= old(self).timers().push(
                (Timer {
                    event_id: r,
                    awake_on: ReactorInner::deadline_for(old(self).now(), duration),
                    task,
                }),
            ),
    {
        self.inner.add_timer(task, duration)
    }

    /// Cancels a still-pending timer; see `ReactorInner::cancel_timer`.
    pub fn cancel_timer(&mut self, event_id: EventId)
        requires
            old(self).wf(),
            old(self).inner.has_timer(event_id),
        ensures
            final(self).wf(),
            final(self).last_id() == old(self).last_id(),
            final(self).now() == old(self).now(),
            exists|i: int|
                0 <= i < old(self).timers().len() && (#[trigger] old(self).timers()[i]).event_id
                    == event_id && final(self).timers() =~= old(self).timers().remove(i),
    {
        self.inner.cancel_timer(event_id);
        proof {
            let i = choose|i: int|
                0 <= i < old(self).inner.timers@.len() && (#[trigger] old(
                    self,
                ).inner.timers@[i]).event_id == event_id && self.inner.timers@
                    =~= old(self).inner.timers@.remove(i);
            assert(0 <= i < old(self).timers().len() && old(self).timers()[i].event_id == event_id
                && self.timers() =~= old(self).timers().remove(i));
        }
    }

    /// Fires the earliest pending timer; see `ReactorInner::wait`.
    pub fn wait(&mut self) -> (r: Option<Wait>)
        requires
            old(self).wf(),
        ensures
            final(self).wf(),
            final(self).last_id() == old(self).last_id(),
            old(self).timers().len() == 0 ==> r is None && *final(self) == *old(self),
            old(self).timers().len() > 0 ==> (r matches Some(w) && exists|i: int|
                {
                    &&& ReactorInner::is_first_min(old(self).timers(), i)
                    &&& w.event_id == (#[trigger] old(self).timers()[i]).event_id
                    &&& w.task == old(self).timers()[i].task
                    &&& final(self).timers() =~= old(self).timers().remove(i)
                    &&& final(self).now() == (if old(self).timers()[i].awake_on > old(self).now() {
                        old(self).timers()[i].awake_on
                    } else {
                        old(self).now()
                    })
                }),
    {
        self.inner.wait()
    }
}

} // verus!
