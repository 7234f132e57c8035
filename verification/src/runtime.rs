//! The scheduler: the run loop, the reentrant nested loop, and the
//! frozen-event redirection that makes reentrancy safe.
//!
//! The runtime owns the reactor, the arena of tasks, the identifier of the
//! wake currently being delivered, and the queue of deferred wakes whose
//! target was frozen when they fired. A nested loop entered from inside an
//! advancing task runs against this same state, so wakes for tasks that are
//! on the call stack are redirected to their highest unfrozen ancestor, or
//! queued and replayed once the target thaws.

use vstd::prelude::*;

verus! {

use crate::computation::{Chain, Computation, Join2, NestedLoop, RtJoin2, Sleep, SleepState, Step};
use crate::reactor::{EventId, Reactor, ReactorInner, Timer, Wait};
use crate::task::Task;

/// How many reentrant levels (nested loops and spawned child advances) one
/// run may stack before it is cut off as a usage error.
pub const NESTING_BUDGET: u64 = 1024;

/// How many iterations one scheduling loop may make before it is cut off.
pub const STEP_BUDGET: u64 = 1000000;

/// The fatal conditions of the scheduler. The design has no recoverable
/// errors: each of these reports a scheduler-internal contradiction or a
/// caller-usage bug, and the run that hits one is abandoned.
#[derive(Copy, Clone, Debug, PartialEq, Eq, Structural)]
pub enum RtError {
    /// The reactor was asked to wait with no pending timer: nothing can
    /// produce progress any more.
    Starved,
    /// A computation that had already reported done was advanced again.
    DoublePoll,
    /// A replayed deferred wake still found its target frozen. The scheduler
    /// proves this cannot happen; the variant names the condition.
    FrozenReplay,
    /// The reentrancy budget or the iteration budget was exhausted.
    BudgetExhausted,
    /// The monotone timer-identifier counter was exhausted.
    TimerIdsExhausted,
    /// A join referred to a task the arena does not know, or to one created
    /// no earlier than the join's own task.
    ForeignTask,
}

/// What advancing a task reports.
#[derive(Copy, Clone, Debug, PartialEq, Eq, Structural)]
pub enum TaskPoll {
    /// The task's computation suspended and will be woken later.
    Pending,
    /// The task's computation is done (now or earlier).
    Ready,
    /// The task is already being advanced somewhere on the call stack and
    /// was not touched. The signal that drives redirection, not an error.
    Frozen,
    /// The task's computation was already destroyed; the wake was stale and
    /// nothing happened. Benign.
    Gone,
}

/// The scheduler state: reactor, wake identification, deferred wakes, and
/// the arena holding the task forest.
pub struct Runtime {
    pub reactor: Reactor,
    pub awoken_event: Option<EventId>,
    pub frozen_events: Vec<Wait>,
    pub tasks: Vec<Task>,
}

impl Runtime {
    /// Structural soundness of one arena slot: a frozen task is mid-advance,
    /// its computation taken out and its completion flag not yet set.
    pub open spec fn slot_ok(t: Task) -> bool {
        t.frozen ==> !t.completed && t.computation is None
    }

    /// The slot at index `i` is sound.
    pub open spec fn task_ok(self, i: int) -> bool {
        Runtime::slot_ok(self.tasks@[i])
    }

    /// Every parent link points into the arena, never at its own task, and
    /// at a task of strictly smaller forest depth: parent chains ascend
    /// towards some root and cannot cycle.
    pub open spec fn parents_ok(self) -> bool {
        forall|i: int|
            0 <= i < self.tasks@.len() ==> ((#[trigger] self.tasks@[i]).parent matches Some(p)
                ==> (p as int) < self.tasks@.len() && (p as int) != i && self.tasks@[p as int].depth
                < self.tasks@[i].depth)
    }

    /// The scheduler invariant: every slot is sound, the parent links form a
    /// forest, the reactor is sound, and every wake target on record points
    /// into the arena.
    pub open spec fn wf(self) -> bool {
        &&& forall|i: int|
            0 <= i < self.tasks@.len() ==> Runtime::slot_ok(#[trigger] self.tasks@[i])
        &&& self.parents_ok()
        &&& self.reactor.wf()
        &&& forall|i: int|
            0 <= i < self.reactor.timers().len() ==> (#[trigger] self.reactor.timers()[i]).task
                < self.tasks@.len()
        &&& forall|i: int|
            0 <= i < self.frozen_events@.len() ==> (#[trigger] self.frozen_events@[i]).task
                < self.tasks@.len()
    }

    /// What every scheduler step preserves: the arena only grows, completion
    /// flags flip one way only, and a task that is frozen — on the call
    /// stack of some enclosing advance — is left exactly as it is.
    pub open spec fn evolves_to(pre: Runtime, post: Runtime) -> bool {
        &&& pre.tasks@.len() <= post.tasks@.len()
        &&& forall|i: int|
            0 <= i < pre.tasks@.len() && pre.tasks@[i].completed ==> (
            #[trigger] post.tasks@[i]).completed
        &&& forall|i: int|
            0 <= i < pre.tasks@.len() && pre.tasks@[i].frozen ==> (#[trigger] post.tasks@[i])
                == pre.tasks@[i]
    }

    /// `evolves_to` composes.
    pub proof fn lemma_evolves_trans(a: Runtime, b: Runtime, c: Runtime)
        requires
            Runtime::evolves_to(a, b),
            Runtime::evolves_to(b, c),
        ensures
            Runtime::evolves_to(a, c),
    {
    }

    pub fn new() -> (rt: Runtime)
        ensures
            rt.wf(),
            rt.tasks@.len() == 0,
            rt.frozen_events@.len() == 0,
            rt.reactor.timers().len() == 0,
            rt.reactor.now() == 0,
            rt.reactor.last_id() == 0,
            rt.awoken_event is None,
    {
        Runtime {
            reactor: Reactor::new(),
            awoken_event: None,
            frozen_events: Vec::new(),
            tasks: Vec::new(),
        }
    }

    /// The reactor this runtime drives.
    pub fn reactor(&self) -> (r: &Reactor)
        ensures
            *r == self.reactor,
    {
        &self.reactor
    }

    /// Whether the wake currently being delivered is the one `event_id`
    /// names. Stale wakes answer no.
    pub fn is_awoken(&self, event_id: EventId) -> (r: bool)
        ensures
            r == (self.awoken_event matches Some(e) && e == event_id),
    {
        match self.awoken_event {
            Some(e) => e.0 == event_id.0,
            None => false,
        }
    }

    /// How many tasks the arena holds.
    pub fn task_count(&self) -> (r: usize)
        ensures
            r == self.tasks@.len(),
    {
        self.tasks.len()
    }

    /// A read-only view of one task.
    pub fn task(&self, t: usize) -> (r: &Task)
        requires
            t < self.tasks@.len(),
        ensures
            *r == self.tasks@[t as int],
    {
        &self.tasks[t]
    }

    /// Puts `computation` into a fresh root task and returns its index.
    pub fn allocate(&mut self, computation: Computation) -> (t: usize)
        requires
            old(self).wf(),
        ensures
            final(self).wf(),
            Runtime::evolves_to(*old(self), *final(self)),
            final(self).reactor.now() >= old(self).reactor.now(),
            t == old(self).tasks@.len(),
            final(self).tasks@ =~= old(self).tasks@.push(
                (Task {
                    computation: Some(computation),
                    parent: None,
                    depth: 0,
                    frozen: false,
                    completed: false,
                }),
            ),
            final(self).reactor == old(self).reactor,
            final(self).awoken_event == old(self).awoken_event,
            final(self).frozen_events@ == old(self).frozen_events@,
    {
        let t = self.tasks.len();
        self.tasks.push(Task::new(computation));
        proof {
            assert forall|i: int| 0 <= i < self.tasks@.len() implies self.task_ok(i) by {
                if i < old(self).tasks@.len() {
                    assert(old(self).task_ok(i));
                }
            }
            assert forall|i: int|
                0 <= i < self.tasks@.len() implies ((#[trigger] self.tasks@[i]).parent matches Some(
                    p,
                ) ==> (p as int) < self.tasks@.len() && (p as int) != i && self.tasks@[p as int].depth
                    < self.tasks@[i].depth) by {
                if i < old(self).tasks@.len() {
                    assert(self.tasks@[i] == old(self).tasks@[i]);
                    assert(old(self).parents_ok());
                    match self.tasks@[i].parent {
                        Some(p) => {
                            assert(self.tasks@[p as int] == old(self).tasks@[p as int]);
                        },
                        None => {},
                    }
                }
            }
            assert forall|i: int| 0 <= i < self.reactor.timers().len() implies (
            #[trigger] self.reactor.timers()[i]).task < self.tasks@.len() by {
                assert(old(self).reactor.timers()[i].task < old(self).tasks@.len());
            }
            assert forall|i: int| 0 <= i < self.frozen_events@.len() implies (
            #[trigger] self.frozen_events@[i]).task < self.tasks@.len() by {
                assert(old(self).frozen_events@[i].task < old(self).tasks@.len());
            }
        }
        t
    }

    /// Drops the computation and parent link of an unfrozen task; the slot
    /// itself stays, so stale wakes for it report `Gone`.
    pub fn destroy_task(&mut self, t: usize)
        requires
            old(self).wf(),
            t < old(self).tasks@.len(),
            !old(self).tasks@[t as int].frozen,
        ensures
            final(self).wf(),
            Runtime::evolves_to(*old(self), *final(self)),
            final(self).reactor.now() >= old(self).reactor.now(),
            final(self).tasks@.len() == old(self).tasks@.len(),
            final(self).tasks@[t as int].computation is None,
            final(self).tasks@[t as int].parent is None,
            final(self).tasks@[t as int].completed == old(self).tasks@[t as int].completed,
            final(self).tasks@[t as int].frozen == old(self).tasks@[t as int].frozen,
            final(self).tasks@[t as int].depth == old(self).tasks@[t as int].depth,
            forall|i: int|
                0 <= i < old(self).tasks@.len() && i != t ==> (#[trigger] final(self).tasks@[i])
                    == old(self).tasks@[i],
            final(self).reactor == old(self).reactor,
            final(self).awoken_event == old(self).awoken_event,
            final(self).frozen_events@ == old(self).frozen_events@,
    {
        let task = &mut self.tasks[t];
        task.destroy();
        proof {
            assert forall|i: int| 0 <= i < self.tasks@.len() implies self.task_ok(i) by {
                assert(old(self).task_ok(i));
                if i != t {
                    assert(self.tasks@[i] == old(self).tasks@[i]);
                }
            }
            self.lemma_parents_ok_stable(*old(self));
        }
    }

    /// Parent links stay a forest when no task's depth changed and every
    /// parent link is as before or cleared.
    proof fn lemma_parents_ok_stable(self, pre: Runtime)
        requires
            pre.parents_ok(),
            self.tasks@.len() == pre.tasks@.len(),
            forall|i: int|
                0 <= i < pre.tasks@.len() ==> ((#[trigger] self.tasks@[i]).parent
                    == pre.tasks@[i].parent || self.tasks@[i].parent is None)
                    && self.tasks@[i].depth == pre.tasks@[i].depth,
        ensures
            self.parents_ok(),
    {
        assert forall|i: int|
            0 <= i < self.tasks@.len() implies ((#[trigger] self.tasks@[i]).parent matches Some(p)
                ==> (p as int) < self.tasks@.len() && (p as int) != i && self.tasks@[p as int].depth
                < self.tasks@[i].depth) by {
            assert(pre.tasks@[i].parent matches Some(q) ==> (q as int) < pre.tasks@.len() && (
            q as int) != i && pre.tasks@[q as int].depth < pre.tasks@[i].depth);
        }
    }

    /// The chain of parent links from `from` up to `to`, climbing only to
    /// parents of strictly smaller depth.
    #[verifier::opaque]
    pub open spec fn reaches_in(tasks: Seq<Task>, from: int, to: int) -> bool
        decreases tasks[from].depth,
    {
        from == to || (0 <= from < tasks.len() && match tasks[from].parent {
            Some(p) => (p as int) < tasks.len() && (p as int) != from && tasks[p as int].depth
                < tasks[from].depth && Runtime::reaches_in(tasks, p as int, to),
            None => false,
        })
    }

    /// The chain of parent links from `from` up to `to`.
    pub open spec fn reaches(self, from: int, to: int) -> bool {
        Runtime::reaches_in(self.tasks@, from, to)
    }

    /// The chain of parent links from `from` up to `to`, with every task on
    /// the chain unfrozen.
    #[verifier::opaque]
    pub open spec fn unfrozen_path_in(tasks: Seq<Task>, from: int, to: int) -> bool
        decreases tasks[from].depth,
    {
        (0 <= from < tasks.len() && !tasks[from].frozen) && (from == to || (
        match tasks[from].parent {
            Some(p) => (p as int) < tasks.len() && (p as int) != from && tasks[p as int].depth
                < tasks[from].depth && Runtime::unfrozen_path_in(tasks, p as int, to),
            None => false,
        }))
    }

    /// Extending an unfrozen parent chain by one unfrozen step at its top
    /// keeps it an unfrozen chain.
    proof fn lemma_unfrozen_path_step(self, from: int, mid: int, p: usize)
        requires
            self.wf(),
            0 <= from,
            0 <= mid < self.tasks@.len(),
            Runtime::unfrozen_path_in(self.tasks@, from, mid),
            self.tasks@[mid].parent == Some(p),
            !self.tasks@[p as int].frozen,
        ensures
            Runtime::unfrozen_path_in(self.tasks@, from, p as int),
        decreases self.tasks@[from].depth,
    {
        reveal(Runtime::unfrozen_path_in);
        assert((p as int) < self.tasks@.len() && (p as int) != mid && self.tasks@[p as int].depth
            < self.tasks@[mid].depth);
        if from == mid {
            assert(Runtime::unfrozen_path_in(self.tasks@, p as int, p as int));
            assert(Runtime::unfrozen_path_in(self.tasks@, mid, p as int));
        } else {
            match self.tasks@[from].parent {
                Some(q) => {
                    assert((q as int) < self.tasks@.len() && (q as int) != from
                        && self.tasks@[q as int].depth < self.tasks@[from].depth
                        && Runtime::unfrozen_path_in(self.tasks@, q as int, mid));
                    self.lemma_unfrozen_path_step(q as int, mid, p);
                },
                None => {
                    assert(false);
                },
            }
        }
    }

    /// Extending a parent chain by one step at its top keeps it a chain.
    proof fn lemma_reaches_step(self, from: int, mid: int, p: usize)
        requires
            self.wf(),
            0 <= from,
            0 <= mid < self.tasks@.len(),
            self.reaches(from, mid),
            self.tasks@[mid].parent == Some(p),
        ensures
            self.reaches(from, p as int),
        decreases self.tasks@[from].depth,
    {
        reveal(Runtime::reaches_in);
        assert((p as int) < self.tasks@.len() && (p as int) != mid && self.tasks@[p as int].depth
            < self.tasks@[mid].depth);
        if from == mid {
            assert(self.reaches(p as int, p as int));
            assert(self.reaches(mid, p as int));
        } else {
            assert(0 <= from < self.tasks@.len());
            match self.tasks@[from].parent {
                Some(q) => {
                    assert((q as int) < self.tasks@.len() && (q as int) != from
                        && self.tasks@[q as int].depth < self.tasks@[from].depth && self.reaches(
                        q as int,
                        mid,
                    ));
                    self.lemma_reaches_step(q as int, mid, p);
                },
                None => {
                    assert(false);
                },
            }
        }
    }

    /// Some task's parent link points at `t`.
    pub open spec fn has_child(self, t: usize) -> bool {
        exists|i: int|
            0 <= i < self.tasks@.len() && (#[trigger] self.tasks@[i]).parent == Some(t)
    }

    /// Whether any task's parent link points at `t`.
    fn is_parent_of_any(&self, t: usize) -> (r: bool)
        ensures
            r == self.has_child(t),
    {
        let mut i: usize = 0;
        loop
            invariant
                i <= self.tasks@.len(),
                forall|j: int| 0 <= j < i ==> (#[trigger] self.tasks@[j]).parent != Some(t),
            decreases self.tasks@.len() - i,
        {
            if i >= self.tasks.len() {
                return false;
            }
            match self.tasks[i].parent {
                Some(p) => {
                    if p == t {
                        proof {
                            assert(self.tasks@[i as int].parent == Some(t));
                        }
                        return true;
                    }
                },
                None => {},
            }
            i = i + 1;
        }
    }

    /// Starting at `t`: `t` itself if `t` is frozen (its callers above are
    /// presumed frozen too) or has no parent; otherwise the highest ancestor
    /// reachable without crossing a frozen node. A wake is delivered there.
    pub fn first_unfrozen_parent(&self, t: usize) -> (r: usize)
        requires
            self.wf(),
            t < self.tasks@.len(),
        ensures
            r < self.tasks@.len(),
            self.reaches(t as int, r as int),
            self.tasks@[t as int].frozen ==> r == t,
            !self.tasks@[t as int].frozen ==> !self.tasks@[r as int].frozen,
            !self.tasks@[t as int].frozen ==> Runtime::unfrozen_path_in(
                self.tasks@,
                t as int,
                r as int,
            ),
            !self.tasks@[t as int].frozen ==> (self.tasks@[r as int].parent is None || (
            self.tasks@[r as int].parent matches Some(p) && self.tasks@[p as int].frozen)),
    {
        proof {
            reveal(Runtime::reaches_in);
            reveal(Runtime::unfrozen_path_in);
            assert(self.reaches(t as int, t as int));
            assert(!self.tasks@[t as int].frozen ==> Runtime::unfrozen_path_in(
                self.tasks@,
                t as int,
                t as int,
            ));
        }
        let mut cur = t;
        loop
            invariant
                self.wf(),
                cur < self.tasks@.len(),
                t < self.tasks@.len(),
                self.reaches(t as int, cur as int),
                self.tasks@[t as int].frozen ==> cur == t,
                !self.tasks@[t as int].frozen ==> !self.tasks@[cur as int].frozen,
                !self.tasks@[t as int].frozen ==> Runtime::unfrozen_path_in(
                    self.tasks@,
                    t as int,
                    cur as int,
                ),
            decreases self.tasks@[cur as int].depth,
        {
            if self.tasks[cur].is_frozen() {
                return cur;
            }
            match self.tasks[cur].parent {
                None => { return cur; },
                Some(p) => {
                    proof {
                        assert(self.tasks@[cur as int].parent matches Some(q) ==> (q as int)
                            < self.tasks@.len() && self.tasks@[q as int].depth
                            < self.tasks@[cur as int].depth);
                    }
                    if self.tasks[p].is_frozen() {
                        return cur;
                    }
                    proof {
                        self.lemma_reaches_step(t as int, cur as int, p);
                        if !self.tasks@[t as int].frozen {
                            self.lemma_unfrozen_path_step(t as int, cur as int, p);
                        }
                    }
                    cur = p;
                },
            }
        }
    }

    /// Finds the position of the first deferred wake whose target task is
    /// not frozen, if any; every earlier-queued wake's target is frozen.
    fn scan_deferred(&self) -> (r: Option<usize>)
        requires
            self.wf(),
        ensures
            r is None ==> forall|j: int|
                0 <= j < self.frozen_events@.len() ==> self.tasks@[(
                #[trigger] self.frozen_events@[j]).task as int].frozen,
            r matches Some(i) ==> i < self.frozen_events@.len() && !self.tasks@[self.frozen_events@[i as int].task as int].frozen
                && forall|j: int|
                0 <= j < i ==> self.tasks@[(#[trigger] self.frozen_events@[j]).task as int].frozen,
    {
        let mut i: usize = 0;
        loop
            invariant
                self.wf(),
                i <= self.frozen_events@.len(),
                forall|j: int|
                    0 <= j < i ==> self.tasks@[(
                    #[trigger] self.frozen_events@[j]).task as int].frozen,
            decreases self.frozen_events@.len() - i,
        {
            if i >= self.frozen_events.len() {
                return None;
            }
            let target = self.frozen_events[i].task;
            if !self.tasks[target].is_frozen() {
                return Some(i);
            }
            i = i + 1;
        }
    }

    /// Scans the deferred wakes in order and removes and returns the first
    /// whose target task is no longer frozen; nothing else changes. Returns
    /// nothing when every deferred wake still has a frozen target. A wake
    /// leaves the queue only through this removal, at the moment it is about
    /// to be delivered.
    #[verifier::rlimit(100)]
    pub fn first_unfrozen_task(&mut self) -> (r: Option<Wait>)
        requires
            old(self).wf(),
        ensures
            final(self).wf(),
            Runtime::evolves_to(*old(self), *final(self)),
            final(self).reactor.now() >= old(self).reactor.now(),
            final(self).tasks@ == old(self).tasks@,
            final(self).reactor == old(self).reactor,
            final(self).awoken_event == old(self).awoken_event,
            r is None ==> final(self).frozen_events@ == old(self).frozen_events@ && forall|i: int|
                0 <= i < old(self).frozen_events@.len() ==> old(self).tasks@[(
                #[trigger] old(self).frozen_events@[i]).task as int].frozen,
            r matches Some(w) ==> (w.task as int) < old(self).tasks@.len() && !old(self).tasks@[w.task as int].frozen
                && exists|i: int|
                {
                    &&& 0 <= i < old(self).frozen_events@.len()
                    &&& (#[trigger] old(self).frozen_events@[i]) == w
                    &&& final(self).frozen_events@ =~= old(self).frozen_events@.remove(i)
                    &&& forall|j: int|
                        0 <= j < i ==> old(self).tasks@[(#[trigger] old(self).frozen_events@[j]).task as int].frozen
                },
    {
        match self.scan_deferred() {
            None => None,
            Some(i) => {
                let ghost pre = *self;
                let w = self.frozen_events.remove(i);
                proof {
                    assert((w.task as int) < self.tasks@.len());
                    assert(self.tasks@ == pre.tasks@);
                    assert(self.reactor == pre.reactor);
                    assert forall|k: int| 0 <= k < self.tasks@.len() implies self.task_ok(k) by {
                        assert(pre.task_ok(k));
                    }
                    self.lemma_parents_ok_stable(pre);
                    assert forall|k: int| 0 <= k < self.frozen_events@.len() implies (
                    #[trigger] self.frozen_events@[k]).task < self.tasks@.len() by {
                        if k < i {
                            assert(self.frozen_events@[k] == pre.frozen_events@[k]);
                        } else {
                            assert(self.frozen_events@[k] == pre.frozen_events@[k + 1]);
                        }
                    }
                    assert(pre.frozen_events@[i as int] == w);
                    assert(self.frozen_events@ =~= pre.frozen_events@.remove(i as int));
                }
                Some(w)
            },
        }
    }

    /// Whether the wake currently being delivered is the one `event_id`    /// Whether the wake currently being delivered is the one `event_id`
    /// names.
    pub open spec fn awake_is(self, event_id: EventId) -> bool {
        self.awoken_event matches Some(e) && e == event_id
    }

    /// Advances task `t` as a root, with no parent context.
    ///
    /// A completed task is never re-advanced: its computation stays
    /// untouched and the whole scheduler is left exactly as it was, while
    /// `Ready` is reported again. The completion flag of every task flips at
    /// most once, which is part of `evolves_to`. On the advancing path the
    /// computation is advanced by exactly one step of the `advanced`
    /// relation.
    pub fn poll(&mut self, t: usize, fuel: u64) -> (r: Result<TaskPoll, RtError>)
        requires
            old(self).wf(),
            t < old(self).tasks@.len(),
        ensures
            final(self).wf(),
            Runtime::evolves_to(*old(self), *final(self)),
            final(self).reactor.now() >= old(self).reactor.now(),
            final(self).tasks@[t as int].frozen == old(self).tasks@[t as int].frozen,
            final(self).tasks@[t as int].parent == old(self).tasks@[t as int].parent,
            r matches Ok(tp) ==> (tp == TaskPoll::Frozen <==> old(self).tasks@[t as int].frozen),
            old(self).tasks@[t as int].frozen ==> (r matches Ok(tp) && tp == TaskPoll::Frozen)
                && *final(self) == *old(self),
            (!old(self).tasks@[t as int].frozen && old(self).tasks@[t as int].computation is None)
                ==> (r matches Ok(tp) && tp == TaskPoll::Gone) && *final(self) == *old(self),
            (!old(self).tasks@[t as int].frozen && old(self).tasks@[t as int].computation is Some
                && old(self).tasks@[t as int].completed) ==> (r matches Ok(tp) && tp
                == TaskPoll::Ready) && *final(self) == *old(self),
            r matches Ok(tp) ==> (tp == TaskPoll::Ready ==> final(self).tasks@[t as int].completed),
            r matches Ok(tp) ==> (tp == TaskPoll::Pending ==> !final(self).tasks@[t as int].completed),
            old(self).tasks@[t as int].computation matches Some(c0) ==> ((!old(self).tasks@[t as int].frozen
                && !old(self).tasks@[t as int].completed) ==> (r matches Ok(tp) ==> (final(self).tasks@[t as int].computation matches Some(c1)
                && ((tp == TaskPoll::Ready && crate::computation::advanced(c0, c1, Step::Ready))
                || (tp == TaskPoll::Pending && crate::computation::advanced(c0, c1, Step::Pending)))))),
            r matches Err(e) ==> e != RtError::FrozenReplay,
            r matches Err(e) ==> (e == RtError::Starved ==> final(self).reactor.timers().len() == 0),
    {
        self.poll_impl(t, None, fuel)
    }

    /// Advances task `t` as the child of task `parent`, recording the parent
    /// link if none is recorded yet — the link is set at most once and never
    /// overwritten. Only joins advance tasks this way.
    pub fn poll_child(&mut self, t: usize, parent: usize, fuel: u64) -> (r: Result<
        TaskPoll,
        RtError,
    >)
        requires
            old(self).wf(),
            t < old(self).tasks@.len(),
            parent < old(self).tasks@.len(),
            parent != t,
        ensures
            final(self).wf(),
            Runtime::evolves_to(*old(self), *final(self)),
            final(self).reactor.now() >= old(self).reactor.now(),
            final(self).tasks@[t as int].frozen == old(self).tasks@[t as int].frozen,
            old(self).tasks@[t as int].parent is Some ==> final(self).tasks@[t as int].parent
                == old(self).tasks@[t as int].parent,
            (old(self).tasks@[t as int].parent is None && !old(self).has_child(t) && !old(self).tasks@[t as int].frozen
                && old(self).tasks@[t as int].computation is Some && !old(self).tasks@[t as int].completed
                && old(self).tasks@[parent as int].depth < u64::MAX) ==> final(self).tasks@[t as int].parent
                == Some(parent),
            r matches Ok(tp) ==> (tp == TaskPoll::Frozen <==> old(self).tasks@[t as int].frozen),
            old(self).tasks@[t as int].frozen ==> (r matches Ok(tp) && tp == TaskPoll::Frozen)
                && *final(self) == *old(self),
            (!old(self).tasks@[t as int].frozen && old(self).tasks@[t as int].computation is None)
                ==> (r matches Ok(tp) && tp == TaskPoll::Gone) && *final(self) == *old(self),
            (!old(self).tasks@[t as int].frozen && old(self).tasks@[t as int].computation is Some
                && old(self).tasks@[t as int].completed) ==> (r matches Ok(tp) && tp
                == TaskPoll::Ready) && *final(self) == *old(self),
            r matches Ok(tp) ==> (tp == TaskPoll::Ready ==> final(self).tasks@[t as int].completed),
            r matches Ok(tp) ==> (tp == TaskPoll::Pending ==> !final(self).tasks@[t as int].completed),
            old(self).tasks@[t as int].computation matches Some(c0) ==> ((!old(self).tasks@[t as int].frozen
                && !old(self).tasks@[t as int].completed) ==> (r matches Ok(tp) ==> (final(self).tasks@[t as int].computation matches Some(c1)
                && ((tp == TaskPoll::Ready && crate::computation::advanced(c0, c1, Step::Ready))
                || (tp == TaskPoll::Pending && crate::computation::advanced(c0, c1, Step::Pending)))))),
            r matches Err(e) ==> e != RtError::FrozenReplay,
            r matches Err(e) ==> (e == RtError::Starved ==> final(self).reactor.timers().len() == 0),
    {
        self.poll_impl(t, Some(parent), fuel)
    }

    /// The shared advance step behind `poll` and `poll_child`.
    ///
    /// Tries to acquire the task's reentrancy guard. A task already being
    /// advanced on the call stack reports `Frozen` untouched; a destroyed
    /// task reports `Gone`; a completed task reports `Ready` idempotently,
    /// without its computation being advanced again. Otherwise the parent
    /// link is recorded if asked and absent, the guard is held around
    /// exactly the advance of the computation, and the guard is released on
    /// every exit, error exits included.
    #[verifier::rlimit(100)]
    fn poll_impl(&mut self, t: usize, parent: Option<usize>, fuel: u64) -> (r: Result<
        TaskPoll,
        RtError,
    >)
        requires
            old(self).wf(),
            t < old(self).tasks@.len(),
            parent matches Some(p) ==> p < old(self).tasks@.len() && p != t,
        ensures
            final(self).wf(),
            Runtime::evolves_to(*old(self), *final(self)),
            final(self).reactor.now() >= old(self).reactor.now(),
            final(self).tasks@[t as int].frozen == old(self).tasks@[t as int].frozen,
            old(self).tasks@[t as int].parent is Some ==> final(self).tasks@[t as int].parent
                == old(self).tasks@[t as int].parent,
            parent is None ==> final(self).tasks@[t as int].parent == old(self).tasks@[t as int].parent,
            parent matches Some(p) ==> ((old(self).tasks@[t as int].parent is None && !old(self).has_child(t) && !old(self).tasks@[t as int].frozen && old(self).tasks@[t as int].computation is Some
                && !old(self).tasks@[t as int].completed && old(self).tasks@[p as int].depth
                < u64::MAX) ==> final(self).tasks@[t as int].parent == Some(p)),
            r matches Ok(tp) ==> (tp == TaskPoll::Frozen <==> old(self).tasks@[t as int].frozen),
            old(self).tasks@[t as int].frozen ==> (r matches Ok(tp) && tp == TaskPoll::Frozen)
                && *final(self) == *old(self),
            (!old(self).tasks@[t as int].frozen && old(self).tasks@[t as int].computation is None)
                ==> (r matches Ok(tp) && tp == TaskPoll::Gone) && *final(self) == *old(self),
            (!old(self).tasks@[t as int].frozen && old(self).tasks@[t as int].computation is Some
                && old(self).tasks@[t as int].completed) ==> (r matches Ok(tp) && tp
                == TaskPoll::Ready) && *final(self) == *old(self),
            r matches Ok(tp) ==> (tp == TaskPoll::Ready ==> final(self).tasks@[t as int].completed),
            r matches Ok(tp) ==> (tp == TaskPoll::Pending ==> !final(self).tasks@[t as int].completed),
            old(self).tasks@[t as int].computation matches Some(c0) ==> ((!old(self).tasks@[t as int].frozen
                && !old(self).tasks@[t as int].completed) ==> (r matches Ok(tp) ==> (final(self).tasks@[t as int].computation matches Some(c1)
                && ((tp == TaskPoll::Ready && crate::computation::advanced(c0, c1, Step::Ready))
                || (tp == TaskPoll::Pending && crate::computation::advanced(c0, c1, Step::Pending)))))),
            r matches Err(e) ==> e != RtError::FrozenReplay,
            r matches Err(e) ==> (e == RtError::Starved ==> final(self).reactor.timers().len() == 0),
        decreases fuel, 1int, 0int,
    {
        if self.tasks[t].is_frozen() {
            return Ok(TaskPoll::Frozen);
        }
        if self.tasks[t].computation.is_none() {
            return Ok(TaskPoll::Gone);
        }
        if self.tasks[t].completed {
            return Ok(TaskPoll::Ready);
        }
        match parent {
            Some(p) => {
                if self.tasks[t].parent.is_none() && !self.is_parent_of_any(t) {
                    let parent_depth = self.tasks[p].depth;
                    if parent_depth < u64::MAX {
                        let task = &mut self.tasks[t];
                        task.assign_parent(p, parent_depth + 1);
                        proof {
                            assert forall|i: int|
                                0 <= i < self.tasks@.len() implies ((
                            #[trigger] self.tasks@[i]).parent matches Some(q) ==> (q as int)
                                < self.tasks@.len() && (q as int) != i && self.tasks@[q as int].depth
                                < self.tasks@[i].depth) by {
                                if i != t {
                                    assert(self.tasks@[i] == old(self).tasks@[i]);
                                    assert(old(self).parents_ok());
                                    match self.tasks@[i].parent {
                                        Some(q) => {
                                            assert(old(self).tasks@[i].parent != Some(t));
                                            assert(self.tasks@[q as int] == old(self).tasks@[
                                                q as int]);
                                        },
                                        None => {},
                                    }
                                }
                            }
                        }
                    }
                }
            },
            None => {},
        }
        proof {
            if self.tasks@[t as int].parent == old(self).tasks@[t as int].parent {
                self.lemma_parents_ok_stable(*old(self));
            }
            assert(self.parents_ok());
            assert forall|i: int| 0 <= i < self.tasks@.len() implies self.task_ok(i) by {
                assert(old(self).task_ok(i));
                if i != t {
                    assert(self.tasks@[i] == old(self).tasks@[i]);
                }
            }
            assert(Runtime::evolves_to(*old(self), *self));
        }
        let ghost linked = *self;
        let task = &mut self.tasks[t];
        let c = task.begin_advance();
        proof {
            assert forall|i: int| 0 <= i < self.tasks@.len() implies self.task_ok(i) by {
                assert(linked.task_ok(i));
                if i != t {
                    assert(self.tasks@[i] == linked.tasks@[i]);
                }
            }
            self.lemma_parents_ok_stable(linked);
            assert(Runtime::evolves_to(linked, *self));
            Runtime::lemma_evolves_trans(*old(self), linked, *self);
        }
        let ghost mid = *self;
        match self.poll_computation(c, t, fuel) {
            Err(e) => {
                proof {
                    assert(mid.tasks@[t as int].frozen);
                    assert(self.tasks@[t as int] == mid.tasks@[t as int]);
                }
                let ghost post_rec = *self;
                let task = &mut self.tasks[t];
                task.abort_advance();
                proof {
                    Runtime::lemma_evolves_trans(*old(self), mid, post_rec);
                    assert forall|i: int| 0 <= i < self.tasks@.len() implies self.task_ok(i) by {
                        assert(post_rec.task_ok(i));
                        if i != t {
                            assert(self.tasks@[i] == post_rec.tasks@[i]);
                        }
                    }
                    self.lemma_parents_ok_stable(post_rec);
                    assert forall|i: int|
                        0 <= i < old(self).tasks@.len() && old(self).tasks@[i].completed implies (
                    #[trigger] self.tasks@[i]).completed by {
                        if i != t {
                            assert(self.tasks@[i] == post_rec.tasks@[i]);
                        }
                    }
                    assert forall|i: int|
                        0 <= i < old(self).tasks@.len() && old(self).tasks@[i].frozen implies (
                    #[trigger] self.tasks@[i]) == old(self).tasks@[i] by {
                        assert(i != t);
                        assert(self.tasks@[i] == post_rec.tasks@[i]);
                    }
                    assert(Runtime::evolves_to(*old(self), *self));
                }
                Err(e)
            },
            Ok((c2, step)) => {
                proof {
                    assert(mid.tasks@[t as int].frozen);
                    assert(self.tasks@[t as int] == mid.tasks@[t as int]);
                }
                let ghost post_rec = *self;
                let done = match step {
                    Step::Ready => true,
                    Step::Pending => false,
                };
                let task = &mut self.tasks[t];
                task.finish_advance(c2, done);
                proof {
                    Runtime::lemma_evolves_trans(*old(self), mid, post_rec);
                    assert forall|i: int| 0 <= i < self.tasks@.len() implies self.task_ok(i) by {
                        assert(post_rec.task_ok(i));
                        if i != t {
                            assert(self.tasks@[i] == post_rec.tasks@[i]);
                        }
                    }
                    self.lemma_parents_ok_stable(post_rec);
                    assert forall|i: int|
                        0 <= i < old(self).tasks@.len() && old(self).tasks@[i].completed implies (
                    #[trigger] self.tasks@[i]).completed by {
                        if i != t {
                            assert(self.tasks@[i] == post_rec.tasks@[i]);
                        }
                    }
                    assert forall|i: int|
                        0 <= i < old(self).tasks@.len() && old(self).tasks@[i].frozen implies (
                    #[trigger] self.tasks@[i]) == old(self).tasks@[i] by {
                        assert(i != t);
                        assert(self.tasks@[i] == post_rec.tasks@[i]);
                    }
                    assert(Runtime::evolves_to(*old(self), *self));
                }
                match step {
                    Step::Ready => Ok(TaskPoll::Ready),
                    Step::Pending => Ok(TaskPoll::Pending),
                }
            },
        }
    }

    /// One advance step of a computation owned by task `t`, against this
    /// scheduler. Consumes the computation and hands back its successor
    /// state together with what the step reported.
    ///
    /// The successor is always one `advanced` step from the input. Beyond
    /// that shape, the contract pins each node kind against the scheduler:
    /// an idle sleep registers exactly one timer aimed at `t` (and owes
    /// success while timer identifiers remain); an armed sleep elapses
    /// exactly on its own wake; a spawning join is reported done exactly
    /// when both of its child tasks have completed, however their advances
    /// and nested loops interleaved; a computation that is already done is
    /// exactly a `DoublePoll` error, with nothing touched.
    pub fn poll_computation(&mut self, c: Computation, t: usize, fuel: u64) -> (r: Result<
        (Computation, Step),
        RtError,
    >)
        requires
            old(self).wf(),
            t < old(self).tasks@.len(),
        ensures
            final(self).wf(),
            Runtime::evolves_to(*old(self), *final(self)),
            final(self).reactor.now() >= old(self).reactor.now(),
            r matches Ok(p) ==> crate::computation::advanced(c, p.0, p.1),
            c matches Computation::Sleep(s) ==> (s.state matches SleepState::Idle { duration }
                ==> (r matches Ok(p) ==> (p.0 == Computation::Sleep(
                (Sleep {
                    state: SleepState::Armed {
                        event_id: (EventId((old(self).reactor.last_id() + 1) as u64)),
                    },
                }),
            ) && p.1 == Step::Pending && final(self).reactor.timers() =~= old(self).reactor.timers().push(
                (Timer {
                    event_id: (EventId((old(self).reactor.last_id() + 1) as u64)),
                    awake_on: ReactorInner::deadline_for(
                        old(self).reactor.now(),
                        duration,
                    ),
                    task: t,
                }),
            )))),
            c matches Computation::Sleep(s) ==> (s.state matches SleepState::Idle { .. } ==> (old(self).reactor.last_id() < u64::MAX ==> r is Ok)),
            c matches Computation::Sleep(s) ==> (s.state matches SleepState::Armed { event_id }
                ==> (r matches Ok(p) && (old(self).awake_is(event_id) ==> p.0
                == Computation::Sleep((Sleep { state: SleepState::Done })) && p.1 == Step::Ready)
                && (!old(self).awake_is(event_id) ==> p.0 == c && p.1 == Step::Pending && *final(self) == *old(self)))),
            c matches Computation::Sleep(s) ==> (s.state == SleepState::Done ==> (r matches Err(
                e,
            ) && e == RtError::DoublePoll) && *final(self) == *old(self)),
            c matches Computation::Join(j) ==> (j.fut1_done && j.fut2_done ==> (r matches Err(e)
                && e == RtError::DoublePoll) && *final(self) == *old(self)),
            c matches Computation::Join(j) ==> (!(j.fut1_done && j.fut2_done) ==> (r matches Ok(p)
                ==> (p.0 matches Computation::Join(j2) && (p.1 == Step::Ready <==> j2.fut1_done
                && j2.fut2_done)))),
            c matches Computation::SpawningJoin(rj) ==> (r matches Ok(p) ==> (p.0 == c
                && rj.task1 < final(self).tasks@.len() && rj.task2 < final(self).tasks@.len() && (
            p.1 == Step::Ready <==> final(self).tasks@[rj.task1 as int].completed && final(self).tasks@[rj.task2 as int].completed))),
            c matches Computation::Sequence(ch) ==> (r matches Ok(p) ==> (p.0 matches
                Computation::Sequence(ch2) && (p.1 == Step::Ready ==> ch2.first_done))),
            c matches Computation::Nested(n) ==> (n.inner is Some ==> (r matches Ok(p) ==> p.0
                == Computation::Nested((NestedLoop { inner: None })) && p.1 == Step::Ready)),
            c matches Computation::Nested(n) ==> (n.inner is None ==> (r matches Err(e) && e
                == RtError::DoublePoll) && *final(self) == *old(self)),
            r matches Err(e) ==> e != RtError::FrozenReplay,
            r matches Err(e) ==> (e == RtError::Starved ==> final(self).reactor.timers().len()
                == 0),
        decreases fuel, 0int, c.size(),
    {
        match c {
            Computation::Sleep(s) => {
                let mut s = s;
                match s.state {
                    SleepState::Idle { duration } => {
                        if self.reactor.inner.last_event_id == u64::MAX {
                            return Err(RtError::TimerIdsExhausted);
                        }
                        let st = s.schedule(&mut self.reactor, t, duration);
                        proof {
                            assert forall|i: int|
                                0 <= i < self.reactor.timers().len() implies (
                            #[trigger] self.reactor.timers()[i]).task < self.tasks@.len() by {
                                if i < old(self).reactor.timers().len() {
                                    assert(old(self).reactor.timers()[i].task < old(self).tasks@.len());
                                }
                            }
                        }
                        Ok((Computation::Sleep(s), st))
                    },
                    SleepState::Armed { event_id } => {
                        let awake = self.is_awoken(event_id);
                        let st = s.complete(awake);
                        Ok((Computation::Sleep(s), st))
                    },
                    SleepState::Done => Err(RtError::DoublePoll),
                }
            },
            Computation::Join(j) => {
                let Join2 { fut1, fut2, fut1_done, fut2_done } = j;
                if fut1_done && fut2_done {
                    return Err(RtError::DoublePoll);
                }
                let mut f1 = fut1;
                let mut f2 = fut2;
                let mut d1 = fut1_done;
                let mut d2 = fut2_done;
                if !d1 {
                    let (c1, st1) = match self.poll_computation(*f1, t, fuel) {
                        Ok(p) => p,
                        Err(e) => {
                            return Err(e);
                        },
                    };
                    f1 = Box::new(c1);
                    if st1 == Step::Ready {
                        d1 = true;
                    }
                }
                let ghost mid = *self;
                if !d2 {
                    let (c2, st2) = match self.poll_computation(*f2, t, fuel) {
                        Ok(p) => p,
                        Err(e) => {
                            proof {
                                Runtime::lemma_evolves_trans(*old(self), mid, *self);
                            }
                            return Err(e);
                        },
                    };
                    f2 = Box::new(c2);
                    if st2 == Step::Ready {
                        d2 = true;
                    }
                    proof {
                        Runtime::lemma_evolves_trans(*old(self), mid, *self);
                    }
                }
                let step = if d1 && d2 {
                    Step::Ready
                } else {
                    Step::Pending
                };
                let next = Computation::Join(
                    (Join2 { fut1: f1, fut2: f2, fut1_done: d1, fut2_done: d2 }),
                );
                proof {
                    assert(crate::computation::advanced(c, next, step));
                }
                Ok((next, step))
            },
            Computation::SpawningJoin(rj) => {
                let RtJoin2 { task1, task2 } = rj;
                if !(task1 < self.tasks.len() && task2 < self.tasks.len() && task1 != t && task2
                    != t) {
                    return Err(RtError::ForeignTask);
                }
                let st = match self.poll_rt_join(task1, task2, t, fuel) {
                    Ok(st) => st,
                    Err(e) => {
                        return Err(e);
                    },
                };
                Ok((Computation::SpawningJoin((RtJoin2 { task1, task2 })), st))
            },
            Computation::Sequence(ch) => {
                let Chain { first, second, first_done } = ch;
                let mut f = first;
                let mut d = first_done;
                if !d {
                    let (c1, st1) = match self.poll_computation(*f, t, fuel) {
                        Ok(p) => p,
                        Err(e) => {
                            return Err(e);
                        },
                    };
                    f = Box::new(c1);
                    if st1 == Step::Ready {
                        d = true;
                    } else {
                        let next = Computation::Sequence(
                            (Chain { first: f, second, first_done: false }),
                        );
                        proof {
                            assert(crate::computation::advanced(c, next, Step::Pending));
                        }
                        return Ok((next, Step::Pending));
                    }
                }
                let ghost mid = *self;
                let (c2, st2) = match self.poll_computation(*second, t, fuel) {
                    Ok(p) => p,
                    Err(e) => {
                        proof {
                            Runtime::lemma_evolves_trans(*old(self), mid, *self);
                        }
                        return Err(e);
                    },
                };
                proof {
                    Runtime::lemma_evolves_trans(*old(self), mid, *self);
                }
                let next = Computation::Sequence(
                    (Chain { first: f, second: Box::new(c2), first_done: true }),
                );
                proof {
                    assert(crate::computation::advanced(c, next, st2));
                }
                Ok((next, st2))
            },
            Computation::Nested(n) => {
                match n.inner {
                    None => Err(RtError::DoublePoll),
                    Some(inner) => {
                        if fuel == 0 {
                            return Err(RtError::BudgetExhausted);
                        }
                        match self.nested_loop(*inner, fuel - 1) {
                            Ok(_) => Ok(
                                (Computation::Nested((NestedLoop { inner: None })), Step::Ready),
                            ),
                            Err(e) => Err(e),
                        }
                    },
                }
            },
        }
    }

    /// The running half of a spawning join: checks completion of both child
    /// tasks, advancing each as a child of task `t` while it is not yet
    /// completed. Reports done exactly when both children are completed, and
    /// at that point destroys both child tasks, their owner being done with
    /// them.
    #[verifier::rlimit(100)]
    fn poll_rt_join(&mut self, t1: usize, t2: usize, t: usize, fuel: u64) -> (r: Result<
        Step,
        RtError,
    >)
        requires
            old(self).wf(),
            t1 < old(self).tasks@.len(),
            t2 < old(self).tasks@.len(),
            t < old(self).tasks@.len(),
            t1 != t,
            t2 != t,
        ensures
            final(self).wf(),
            Runtime::evolves_to(*old(self), *final(self)),
            final(self).reactor.now() >= old(self).reactor.now(),
            r matches Ok(st) ==> (st == Step::Ready <==> final(self).tasks@[t1 as int].completed
                && final(self).tasks@[t2 as int].completed),
            r matches Err(e) ==> e != RtError::FrozenReplay,
            r matches Err(e) ==> (e == RtError::Starved ==> final(self).reactor.timers().len()
                == 0),
        decreases fuel, 0int, 0int,
    {
        if fuel == 0 {
            return Err(RtError::BudgetExhausted);
        }
        if self.tasks[t1].is_completed() && self.tasks[t2].is_completed() {
            proof {
                assert(self.task_ok(t1 as int));
                assert(self.task_ok(t2 as int));
            }
            self.destroy_task(t1);
            self.destroy_task(t2);
            return Ok(Step::Ready);
        }
        match self.poll_impl(t1, Some(t), fuel - 1) {
            Ok(_) => (),
            Err(e) => {
                return Err(e);
            },
        }
        let ghost mid1 = *self;
        if self.tasks[t1].is_completed() && self.tasks[t2].is_completed() {
            proof {
                assert(self.task_ok(t1 as int));
                assert(self.task_ok(t2 as int));
            }
            self.destroy_task(t1);
            self.destroy_task(t2);
            proof {
                Runtime::lemma_evolves_trans(*old(self), mid1, *self);
            }
            return Ok(Step::Ready);
        }
        match self.poll_impl(t2, Some(t), fuel - 1) {
            Ok(_) => (),
            Err(e) => {
                proof {
                    Runtime::lemma_evolves_trans(*old(self), mid1, *self);
                }
                return Err(e);
            },
        }
        let ghost mid2 = *self;
        proof {
            Runtime::lemma_evolves_trans(*old(self), mid1, mid2);
        }
        if self.tasks[t1].is_completed() && self.tasks[t2].is_completed() {
            proof {
                assert(self.task_ok(t1 as int));
                assert(self.task_ok(t2 as int));
            }
            self.destroy_task(t1);
            self.destroy_task(t2);
            proof {
                Runtime::lemma_evolves_trans(*old(self), mid2, *self);
            }
            return Ok(Step::Ready);
        }
        proof {
            assert(self.task_ok(t1 as int));
            assert(self.task_ok(t2 as int));
        }
        Ok(Step::Pending)
    }

    /// Replays deferred wakes: as long as some deferred wake has an unfrozen
    /// target, removes the first such, resolves its highest unfrozen
    /// ancestor and advances it. A deferred wake is removed from the queue
    /// only at the advance that delivers it; a wake whose target stayed
    /// frozen stays queued. The advance reporting `Frozen` here would
    /// contradict the ancestor resolution, and is proved unreachable.
    #[verifier::rlimit(100)]
    fn poll_frozen_events(&mut self, fuel: u64) -> (r: Result<(), RtError>)
        requires
            old(self).wf(),
        ensures
            final(self).wf(),
            Runtime::evolves_to(*old(self), *final(self)),
            final(self).reactor.now() >= old(self).reactor.now(),
            r is Ok ==> forall|i: int|
                0 <= i < final(self).frozen_events@.len() ==> final(self).tasks@[(#[trigger] final(self).frozen_events@[i]).task as int].frozen,
            r matches Err(e) ==> e != RtError::FrozenReplay,
            r matches Err(e) ==> (e == RtError::Starved ==> final(self).reactor.timers().len()
                == 0),
        decreases fuel, 2int, 0int,
    {
        let mut steps: u64 = STEP_BUDGET;
        loop
            invariant
                self.wf(),
                Runtime::evolves_to(*old(self), *self),
                self.reactor.now() >= old(self).reactor.now(),
            decreases steps,
        {
            if steps == 0 {
                return Err(RtError::BudgetExhausted);
            }
            steps = steps - 1;
            let ghost at_entry = *self;
            match self.first_unfrozen_task() {
                None => {
                    return Ok(());
                },
                Some(w) => {
                    proof {
                        Runtime::lemma_evolves_trans(*old(self), at_entry, *self);
                    }
                    let anc = self.first_unfrozen_parent(w.task);
                    self.awoken_event = Some(w.event_id);
                    let ghost before_poll = *self;
                    match self.poll_impl(anc, None, fuel) {
                        Err(e) => {
                            proof {
                                Runtime::lemma_evolves_trans(*old(self), before_poll, *self);
                            }
                            return Err(e);
                        },
                        Ok(TaskPoll::Frozen) => {
                            proof {
                                assert(!before_poll.tasks@[anc as int].frozen);
                                assert(false);
                            }
                            return Err(RtError::FrozenReplay);
                        },
                        Ok(_) => {
                            proof {
                                Runtime::lemma_evolves_trans(*old(self), before_poll, *self);
                            }
                        },
                    }
                },
            }
        }
    }

    /// Fires the next timer and delivers its wake. The earliest-deadline
    /// timer leaves the reactor; its wake is routed to the highest unfrozen
    /// ancestor of its target task, and that ancestor is advanced. A wake
    /// whose target is frozen — its whole path upward is on the call stack —
    /// cannot be delivered now: it is pushed onto the deferred queue, never
    /// dropped, and no task is touched. With no timer pending the scheduler
    /// is starved: nothing can produce progress any more.
    #[verifier::rlimit(100)]
    fn deliver_next_wake(&mut self, fuel: u64) -> (r: Result<(), RtError>)
        requires
            old(self).wf(),
        ensures
            final(self).wf(),
            Runtime::evolves_to(*old(self), *final(self)),
            final(self).reactor.now() >= old(self).reactor.now(),
            old(self).reactor.timers().len() == 0 ==> (r matches Err(e) && e == RtError::Starved)
                && *final(self) == *old(self),
            r matches Err(e) ==> e != RtError::FrozenReplay,
            r matches Err(e) ==> (e == RtError::Starved ==> final(self).reactor.timers().len()
                == 0),
            r is Ok ==> exists|i: int|
                {
                    &&& ReactorInner::is_first_min(old(self).reactor.timers(), i)
                    &&& (#[trigger] old(self).reactor.timers()[i]).task < old(self).tasks@.len()
                    &&& (old(self).tasks@[old(self).reactor.timers()[i].task as int].frozen ==> {
                        &&& final(self).frozen_events@ =~= old(self).frozen_events@.push(
                            (Wait {
                                event_id: old(self).reactor.timers()[i].event_id,
                                task: old(self).reactor.timers()[i].task,
                            }),
                        )
                        &&& final(self).tasks@ == old(self).tasks@
                        &&& final(self).reactor.timers() =~= old(self).reactor.timers().remove(i)
                    })
                    &&& (!old(self).tasks@[old(self).reactor.timers()[i].task as int].frozen
                        ==> exists|anc: int|
                        {
                            &&& 0 <= anc < old(self).tasks@.len()
                            &&& Runtime::reaches_in(
                                old(self).tasks@,
                                old(self).reactor.timers()[i].task as int,
                                anc,
                            )
                            &&& !(#[trigger] old(self).tasks@[anc]).frozen
                            &&& (old(self).tasks@[anc].computation matches Some(c0) ==> (!old(self).tasks@[anc].completed ==> (final(self).tasks@[anc].computation
                                matches Some(c1) && (crate::computation::advanced(
                                c0,
                                c1,
                                Step::Ready,
                            ) || crate::computation::advanced(c0, c1, Step::Pending)))))
                        })
                },
        decreases fuel, 2int, 1int,
    {
        let ghost entry = *self;
        let w = match self.reactor.wait() {
            None => {
                return Err(RtError::Starved);
            },
            Some(w) => w,
        };
        let ghost fired = choose|i: int|
            {
                &&& ReactorInner::is_first_min(entry.reactor.timers(), i)
                &&& w.event_id == (#[trigger] entry.reactor.timers()[i]).event_id
                &&& w.task == entry.reactor.timers()[i].task
                &&& self.reactor.timers() =~= entry.reactor.timers().remove(i)
                &&& self.reactor.now() == (if entry.reactor.timers()[i].awake_on
                    > entry.reactor.now() {
                    entry.reactor.timers()[i].awake_on
                } else {
                    entry.reactor.now()
                })
            };
        proof {
            assert(entry.reactor.timers()[fired].task < entry.tasks@.len());
            assert(w.task < self.tasks@.len());
            assert forall|k: int| 0 <= k < self.reactor.timers().len() implies (
            #[trigger] self.reactor.timers()[k]).task < self.tasks@.len() by {
                if k < fired {
                    assert(self.reactor.timers()[k] == entry.reactor.timers()[k]);
                } else {
                    assert(self.reactor.timers()[k] == entry.reactor.timers()[k + 1]);
                }
            }
            assert forall|k: int| 0 <= k < self.tasks@.len() implies self.task_ok(k) by {
                assert(entry.task_ok(k));
            }
            self.lemma_parents_ok_stable(entry);
            assert(self.wf());
            assert(Runtime::evolves_to(entry, *self));
        }
        self.awoken_event = Some(w.event_id);
        let anc = self.first_unfrozen_parent(w.task);
        let ghost before_poll = *self;
        match self.poll_impl(anc, None, fuel) {
            Err(e) => {
                proof {
                    Runtime::lemma_evolves_trans(*old(self), before_poll, *self);
                }
                Err(e)
            },
            Ok(TaskPoll::Frozen) => {
                // the ancestor search stopped at the frozen target itself:
                // defer the wake for replay once the target thaws
                self.frozen_events.push(w);
                proof {
                    assert(before_poll.tasks@[anc as int].frozen);
                    assert(anc == w.task);
                    assert(old(self).tasks@[w.task as int].frozen);
                    assert forall|k: int| 0 <= k < self.frozen_events@.len() implies (
                    #[trigger] self.frozen_events@[k]).task < self.tasks@.len() by {}
                    Runtime::lemma_evolves_trans(*old(self), before_poll, *self);
                    assert(self.tasks@ == old(self).tasks@);
                    assert(self.frozen_events@ =~= old(self).frozen_events@.push(
                        (Wait {
                            event_id: old(self).reactor.timers()[fired].event_id,
                            task: old(self).reactor.timers()[fired].task,
                        }),
                    ));
                    assert(self.reactor.timers() =~= old(self).reactor.timers().remove(fired));
                }
                Ok(())
            },
            Ok(_) => {
                proof {
                    Runtime::lemma_evolves_trans(*old(self), before_poll, *self);
                    assert(!old(self).tasks@[w.task as int].frozen);
                    assert(Runtime::reaches_in(old(self).tasks@, w.task as int, anc as int));
                    assert(!old(self).tasks@[anc as int].frozen);
                }
                Ok(())
            },
        }
    }

    /// The reentrant scheduling loop. Wraps `computation` in a fresh root
    /// task, advances it once so it can register its timers, and from there
    /// replays deferred wakes and delivers reactor wakes — each to the
    /// highest unfrozen ancestor of its target, deferring it when even that
    /// ancestor is frozen — until the root task completes. The root task is
    /// destroyed before returning.
    ///
    /// Reentrant: a nested call made from inside an advancing task runs
    /// against the same reactor and the same deferred-wake queue as the
    /// loops below it.
    pub fn nested_loop(&mut self, computation: Computation, fuel: u64) -> (r: Result<(), RtError>)
        requires
            old(self).wf(),
        ensures
            final(self).wf(),
            Runtime::evolves_to(*old(self), *final(self)),
            final(self).reactor.now() >= old(self).reactor.now(),
            r is Ok ==> old(self).tasks@.len() < final(self).tasks@.len() && final(self).tasks@[old(self).tasks@.len() as int].completed && final(self).tasks@[old(self).tasks@.len() as int].computation is None,
            r matches Err(e) ==> e != RtError::FrozenReplay,
            r matches Err(e) ==> (e == RtError::Starved ==> final(self).reactor.timers().len()
                == 0),
        decreases fuel, 3int, 0int,
    {
        let root = self.allocate(computation);
        let ghost with_root = *self;
        match self.poll_impl(root, None, fuel) {
            Err(e) => {
                proof {
                    Runtime::lemma_evolves_trans(*old(self), with_root, *self);
                }
                return Err(e);
            },
            Ok(TaskPoll::Ready) => {
                proof {
                    assert(self.task_ok(root as int));
                }
                self.destroy_task(root);
                proof {
                    Runtime::lemma_evolves_trans(*old(self), with_root, *self);
                }
                return Ok(());
            },
            Ok(_) => {
                proof {
                    Runtime::lemma_evolves_trans(*old(self), with_root, *self);
                }
            },
        }
        let mut steps: u64 = STEP_BUDGET;
        loop
            invariant
                self.wf(),
                Runtime::evolves_to(*old(self), *self),
                self.reactor.now() >= old(self).reactor.now(),
                root == old(self).tasks@.len(),
                root < self.tasks@.len(),
            decreases steps,
        {
            if steps == 0 {
                return Err(RtError::BudgetExhausted);
            }
            steps = steps - 1;
            let ghost iter_start = *self;
            match self.poll_frozen_events(fuel) {
                Ok(_) => (),
                Err(e) => {
                    proof {
                        Runtime::lemma_evolves_trans(*old(self), iter_start, *self);
                    }
                    return Err(e);
                },
            }
            proof {
                Runtime::lemma_evolves_trans(*old(self), iter_start, *self);
            }
            if self.tasks[root].is_completed() {
                let ghost before_destroy = *self;
                self.destroy_task(root);
                proof {
                    Runtime::lemma_evolves_trans(*old(self), before_destroy, *self);
                }
                return Ok(());
            }
            let ghost before_deliver = *self;
            match self.deliver_next_wake(fuel) {
                Ok(_) => (),
                Err(e) => {
                    proof {
                        Runtime::lemma_evolves_trans(*old(self), before_deliver, *self);
                    }
                    return Err(e);
                },
            }
            proof {
                Runtime::lemma_evolves_trans(*old(self), before_deliver, *self);
            }
            if self.tasks[root].is_completed() {
                let ghost before_destroy = *self;
                self.destroy_task(root);
                proof {
                    Runtime::lemma_evolves_trans(*old(self), before_destroy, *self);
                }
                return Ok(());
            }
        }
    }

    /// Drives `computation` to completion on this runtime, with the default
    /// reentrancy budget.
    fn block_on(&mut self, computation: Computation) -> (r: Result<(), RtError>)
        requires
            old(self).wf(),
        ensures
            final(self).wf(),
            Runtime::evolves_to(*old(self), *final(self)),
            final(self).reactor.now() >= old(self).reactor.now(),
            r is Ok ==> old(self).tasks@.len() < final(self).tasks@.len() && final(self).tasks@[old(self).tasks@.len() as int].completed && final(self).tasks@[old(self).tasks@.len() as int].computation is None,
            r matches Err(e) ==> e != RtError::FrozenReplay,
            r matches Err(e) ==> (e == RtError::Starved ==> final(self).reactor.timers().len()
                == 0),
    {
        self.nested_loop(computation, NESTING_BUDGET)
    }
}

/// Builds a fresh scheduler and drives `computation` to completion on it:
/// the sole top-level entry point. Returns the scheduler afterwards, its
/// first task being the completed root, so the virtual clock and the arena
/// can be inspected. A computation whose spawning joins allocated tasks at
/// construction must instead be driven by `Runtime::nested_loop` on the
/// runtime it was built against.
pub fn run(computation: Computation) -> (r: Result<Runtime, RtError>)
    ensures
        r matches Ok(rt) ==> rt.wf() && rt.tasks@.len() >= 1 && rt.tasks@[0].completed
            && rt.tasks@[0].computation is None,
        r matches Err(e) ==> e != RtError::FrozenReplay,
{
    let mut rt = Runtime::new();
    match rt.block_on(computation) {
        Ok(_) => Ok(rt),
        Err(e) => Err(e),
    }
}

} // verus!
