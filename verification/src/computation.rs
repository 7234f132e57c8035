//! Suspendable computations, as explicit state machines.
//!
//! A `Computation` is advanced one step at a time by the scheduler and
//! reports `Pending` (it registered a wake for later) or `Ready` (done; it
//! must never be advanced again). The leaves are timed sleeps; the inner
//! nodes combine computations: a plain two-way join, a spawning two-way join
//! that wraps its children in scheduler tasks, sequencing, and a node that
//! drains a whole sub-computation through a reentrant scheduling loop.

use vstd::prelude::*;

verus! {

use crate::reactor::{EventId, Reactor, ReactorInner, Timer};
use crate::runtime::Runtime;
use crate::task::Task;

/// What one advance step of a computation reports.
#[derive(Copy, Clone, Debug, PartialEq, Eq, Structural)]
pub enum Step {
    Pending,
    Ready,
}

/// The three states of a timed sleep: not yet registered, waiting on a
/// registered timer, elapsed.
#[derive(Copy, Clone, Debug, PartialEq, Eq, Structural)]
pub enum SleepState {
    Idle { duration: u64 },
    Armed { event_id: EventId },
    Done,
}

/// A leaf computation that suspends for a fixed number of virtual
/// milliseconds.
#[derive(Copy, Clone, Debug, PartialEq, Eq, Structural)]
pub struct Sleep {
    pub state: SleepState,
}

impl Sleep {
    pub fn new(duration_ms: u64) -> (s: Sleep)
        ensures
            s.state == (SleepState::Idle { duration: duration_ms }),
    {
        Sleep { state: SleepState::Idle { duration: duration_ms } }
    }

    /// First advance from `Idle`: registers a one-shot timer aimed at
    /// `target` and moves to `Armed`. Always reports `Pending`.
    pub fn schedule(&mut self, reactor: &mut Reactor, target: usize, duration: u64) -> (r: Step)
        requires
            old(self).state matches SleepState::Idle { .. },
            old(reactor).wf(),
            old(reactor).last_id() < u64::MAX,
        ensures
            r == Step::Pending,
            final(reactor).wf(),
            final(reactor).now() == old(reactor).now(),
            final(reactor).last_id() == old(reactor).last_id() + 1,
            final(self).state == (SleepState::Armed {
                event_id: (EventId((old(reactor).last_id() + 1) as u64)),
            }),
            final(reactor).timers() =~= old(reactor).timers().push(
                (Timer {
                    event_id: (EventId((old(reactor).last_id() + 1) as u64)),
                    awake_on: ReactorInner::deadline_for(old(reactor).now(), duration),
                    task: target,
                }),
            ),
    {
        let event_id = reactor.add_timer(target, duration);
        self.state = SleepState::Armed { event_id };
        Step::Pending
    }

    /// A later advance from `Armed`: if the wake that is being delivered is
    /// the one this sleep registered, the sleep is done; any other wake is
    /// stale and leaves it untouched.
    pub fn complete(&mut self, awoken: bool) -> (r: Step)
        requires
            old(self).state matches SleepState::Armed { .. },
        ensures
            awoken ==> (final(self).state == SleepState::Done && r == Step::Ready),
            !awoken ==> (*final(self) == *old(self) && r == Step::Pending),
    {
        if awoken {
            self.state = SleepState::Done;
            Step::Ready
        } else {
            Step::Pending
        }
    }

    /// Cooperative cancellation: removes the outstanding timer of an `Armed`
    /// sleep from the reactor. The timer must still be pending.
    pub fn cancel(&self, reactor: &mut Reactor)
        requires
            self.state matches SleepState::Armed { event_id } && old(reactor).wf() && old(
                reactor,
            ).inner.has_timer(event_id),
        ensures
            final(reactor).wf(),
            final(reactor).now() == old(reactor).now(),
            final(reactor).last_id() == old(reactor).last_id(),
            self.state matches SleepState::Armed { event_id } ==> exists|i: int|
                0 <= i < old(reactor).timers().len() && (#[trigger] old(reactor).timers()[i]).event_id
                    == event_id && final(reactor).timers() =~= old(reactor).timers().remove(i),
    {
        match self.state {
            SleepState::Armed { event_id } => reactor.cancel_timer(event_id),
            _ => (),
        }
    }
}

/// The plain two-way join: advances both children inline, in a fixed order,
/// and is done once both are done. It creates no tasks, so its children do
/// not take part in the task forest.
pub struct Join2 {
    pub fut1: Box<Computation>,
    pub fut2: Box<Computation>,
    pub fut1_done: bool,
    pub fut2_done: bool,
}

impl Join2 {
    pub fn new(f1: Computation, f2: Computation) -> (j: Join2)
        ensures
            *j.fut1 == f1,
            *j.fut2 == f2,
            !j.fut1_done,
            !j.fut2_done,
    {
        Join2 { fut1: Box::new(f1), fut2: Box::new(f2), fut1_done: false, fut2_done: false }
    }

    pub fn is_completed(&self) -> (r: bool)
        ensures
            r == (self.fut1_done && self.fut2_done),
    {
        self.fut1_done && self.fut2_done
    }
}

/// The forest-aware two-way join: it wraps both children in fresh scheduler
/// tasks as soon as it is built, and advances them as child tasks, which
/// records parent links and lets the frozen/unfrozen redirection work across
/// the joined subtrees. This is the only construct that creates tasks.
pub struct RtJoin2 {
    pub task1: usize,
    pub task2: usize,
}

impl RtJoin2 {
    /// Wraps `f1` and `f2` in two fresh tasks at the end of `rt`'s arena.
    /// Both start as roots — parent unset, unfrozen, not completed — and no
    /// timer is registered for either.
    pub fn new(rt: &mut Runtime, f1: Computation, f2: Computation) -> (j: RtJoin2)
        requires
            old(rt).wf(),
        ensures
            final(rt).wf(),
            Runtime::evolves_to(*old(rt), *final(rt)),
            j.task1 == old(rt).tasks@.len(),
            j.task2 == old(rt).tasks@.len() + 1,
            final(rt).tasks@ =~= old(rt).tasks@.push(
                (Task { computation: Some(f1), parent: None, depth: 0, frozen: false, completed: false }),
            ).push(
                (Task { computation: Some(f2), parent: None, depth: 0, frozen: false, completed: false }),
            ),
            final(rt).reactor == old(rt).reactor,
            final(rt).awoken_event == old(rt).awoken_event,
            final(rt).frozen_events@ == old(rt).frozen_events@,
    {
        let task1 = rt.allocate(f1);
        let task2 = rt.allocate(f2);
        RtJoin2 { task1, task2 }
    }

    /// Whether both child tasks have completed.
    pub fn is_completed(&self, rt: &Runtime) -> (r: bool)
        ensures
            r == (self.task1 < rt.tasks@.len() && self.task2 < rt.tasks@.len() && (!rt.tasks@[self.task1 as int].frozen
                && rt.tasks@[self.task1 as int].completed) && (!rt.tasks@[self.task2 as int].frozen
                && rt.tasks@[self.task2 as int].completed)),
    {
        if self.task1 < rt.task_count() && self.task2 < rt.task_count() {
            rt.task(self.task1).is_completed() && rt.task(self.task2).is_completed()
        } else {
            false
        }
    }
}

/// Sequencing: advances `first` until it is done, from the same step goes on
/// to advance `second`, and is done when `second` is done.
pub struct Chain {
    pub first: Box<Computation>,
    pub second: Box<Computation>,
    pub first_done: bool,
}

/// A node that, when first advanced, synchronously drains its inner
/// computation to completion through a reentrant scheduling loop and is done.
/// The inner computation is gone once drained.
pub struct NestedLoop {
    pub inner: Option<Box<Computation>>,
}

/// An opaque suspendable state machine, advanced one step at a time.
pub enum Computation {
    Sleep(Sleep),
    Join(Join2),
    SpawningJoin(RtJoin2),
    Sequence(Chain),
    Nested(NestedLoop),
}

impl Computation {
    /// Structural size, the measure for advancing a computation.
    pub open spec fn size(self) -> nat
        decreases self,
    {
        match self {
            Computation::Sleep(_) => 1,
            Computation::Join(j) => 1 + j.fut1.size() + j.fut2.size(),
            Computation::SpawningJoin(_) => 1,
            Computation::Sequence(c) => 1 + c.first.size() + c.second.size(),
            Computation::Nested(n) => match n.inner {
                Some(b) => 1 + b.size(),
                None => 1,
            },
        }
    }
}

/// How one advance step may transform a computation: the shape half of the
/// scheduler's advance contract. `advanced(c0, c1, step)` holds exactly when
/// a single advance of `c0` can leave `c1` behind and report `step`: an idle
/// sleep arms itself and suspends; an armed sleep either elapses or is left
/// untouched by a stale wake; a join advances each not-yet-done child one
/// step and carries a done child over unchanged, reporting done exactly when
/// both are; a sequence advances its first part and, the step it finishes,
/// goes on to its second; a nested-loop node drains its inner computation
/// and is done. A done computation admits no step at all.
pub open spec fn advanced(c0: Computation, c1: Computation, step: Step) -> bool
    decreases c0,
{
    match c0 {
        Computation::Sleep(s0) => match s0.state {
            SleepState::Idle { .. } => c1 matches Computation::Sleep(s1) && s1.state matches
                SleepState::Armed { .. } && step == Step::Pending,
            SleepState::Armed { .. } => (step == Step::Ready && c1 == Computation::Sleep(
                (Sleep { state: SleepState::Done }),
            )) || (step == Step::Pending && c1 == c0),
            SleepState::Done => false,
        },
        Computation::Join(j0) => !(j0.fut1_done && j0.fut2_done) && (c1 matches Computation::Join(
            j1,
        ) && {
            &&& (step == Step::Ready <==> j1.fut1_done && j1.fut2_done)
            &&& (j0.fut1_done ==> j1.fut1_done && j1.fut1 == j0.fut1)
            &&& (!j0.fut1_done ==> advanced(
                *j0.fut1,
                *j1.fut1,
                if j1.fut1_done {
                    Step::Ready
                } else {
                    Step::Pending
                },
            ))
            &&& (j0.fut2_done ==> j1.fut2_done && j1.fut2 == j0.fut2)
            &&& (!j0.fut2_done ==> advanced(
                *j0.fut2,
                *j1.fut2,
                if j1.fut2_done {
                    Step::Ready
                } else {
                    Step::Pending
                },
            ))
        }),
        Computation::SpawningJoin(_) => c1 == c0,
        Computation::Sequence(ch0) => c1 matches Computation::Sequence(ch1) && {
            &&& (ch0.first_done ==> ch1.first_done && ch1.first == ch0.first && advanced(
                *ch0.second,
                *ch1.second,
                step,
            ))
            &&& (!ch0.first_done ==> {
                ||| (!ch1.first_done && step == Step::Pending && ch1.second == ch0.second
                    && advanced(*ch0.first, *ch1.first, Step::Pending))
                ||| (ch1.first_done && advanced(*ch0.first, *ch1.first, Step::Ready) && advanced(
                    *ch0.second,
                    *ch1.second,
                    step,
                ))
            })
        },
        Computation::Nested(n0) => match n0.inner {
            Some(_) => c1 == Computation::Nested((NestedLoop { inner: None })) && step
                == Step::Ready,
            None => false,
        },
    }
}

/// A computation that suspends for `duration_ms` virtual milliseconds.
pub fn sleep(duration_ms: u64) -> (c: Computation)
    ensures
        c == Computation::Sleep((Sleep { state: SleepState::Idle { duration: duration_ms } })),
{
    Computation::Sleep(Sleep::new(duration_ms))
}

/// A computation that is done once both `f1` and `f2` are done, advanced
/// inline without creating tasks. Must not be used around children that
/// themselves enter nested loops.
pub fn make_join2(f1: Computation, f2: Computation) -> (c: Computation)
    ensures
        c matches Computation::Join(j) && *j.fut1 == f1 && *j.fut2 == f2 && !j.fut1_done
            && !j.fut2_done,
{
    Computation::Join(Join2::new(f1, f2))
}

/// A computation that is done once both `f1` and `f2` are done, each wrapped
/// at construction time in a fresh root task of `rt`'s arena. Required
/// whenever either child may enter a nested loop. The computation must then
/// be driven on the same runtime it was built against.
pub fn make_rt_join2(rt: &mut Runtime, f1: Computation, f2: Computation) -> (c: Computation)
    requires
        old(rt).wf(),
    ensures
        final(rt).wf(),
        Runtime::evolves_to(*old(rt), *final(rt)),
        c == Computation::SpawningJoin(
            (RtJoin2 {
                task1: old(rt).tasks@.len() as usize,
                task2: (old(rt).tasks@.len() + 1) as usize,
            }),
        ),
        final(rt).tasks@ =~= old(rt).tasks@.push(
            (Task { computation: Some(f1), parent: None, depth: 0, frozen: false, completed: false }),
        ).push(
            (Task { computation: Some(f2), parent: None, depth: 0, frozen: false, completed: false }),
        ),
        final(rt).reactor == old(rt).reactor,
        final(rt).awoken_event == old(rt).awoken_event,
        final(rt).frozen_events@ == old(rt).frozen_events@,
{
    Computation::SpawningJoin(RtJoin2::new(rt, f1, f2))
}

/// A computation that advances `first` to completion and from the same step
/// goes on to `second`; done when `second` is done.
pub fn chain(first: Computation, second: Computation) -> (c: Computation)
    ensures
        c matches Computation::Sequence(ch) && *ch.first == first && *ch.second == second
            && !ch.first_done,
{
    Computation::Sequence(
        Chain { first: Box::new(first), second: Box::new(second), first_done: false },
    )
}

/// A computation that, when reached, synchronously drains `inner` to
/// completion through a reentrant scheduling loop before reporting done.
pub fn nested_loop(inner: Computation) -> (c: Computation)
    ensures
        c matches Computation::Nested(n) && (n.inner matches Some(b) && *b == inner),
{
    Computation::Nested(NestedLoop { inner: Some(Box::new(inner)) })
}

} // verus!
