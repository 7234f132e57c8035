//! A task: one node of the scheduler's forest.
//!
//! A task wraps exactly one suspendable computation and carries the state
//! that the frozen/unfrozen protocol needs: a completion flag that flips
//! once, a guard that marks the task as "frozen" while it is being advanced
//! somewhere on the call stack, and a parent link, set at most once, the
//! first time the task is advanced as the child of another task. Tasks live
//! in the scheduler's arena and refer to each other by index.

use vstd::prelude::*;

verus! {

use crate::computation::Computation;

/// One node of the task forest. `computation` is taken out while the task is
/// being advanced (`frozen`) and for good once the task is destroyed.
/// `depth` is the task's distance from its forest root, recorded when the
/// parent link is set; parents have strictly smaller depths, which is what
/// lets a wake's climb towards the root terminate.
pub struct Task {
    pub computation: Option<Computation>,
    pub parent: Option<usize>,
    pub depth: u64,
    pub frozen: bool,
    pub completed: bool,
}

impl Task {
    /// A fresh root task around `computation`.
    pub fn new(computation: Computation) -> (t: Task)
        ensures
            t.computation == Some(computation),
            t.parent is None,
            t.depth == 0,
            !t.frozen,
            !t.completed,
    {
        Task {
            computation: Some(computation),
            parent: None,
            depth: 0,
            frozen: false,
            completed: false,
        }
    }

    /// Whether the task is currently being advanced somewhere on the call
    /// stack, and so must not be re-entered.
    pub fn is_frozen(&self) -> (r: bool)
        ensures
            r == self.frozen,
    {
        self.frozen
    }

    /// Whether the task's computation has reported done. A frozen task
    /// reports not completed: its advance is still in progress.
    pub fn is_completed(&self) -> (r: bool)
        ensures
            r == (!self.frozen && self.completed),
    {
        !self.frozen && self.completed
    }

    /// Drops the owned computation and the parent link. Destruction of a
    /// frozen task would corrupt an advance in progress higher up the call
    /// stack, so that case is excluded outright.
    pub fn destroy(&mut self)
        requires
            !old(self).frozen,
        ensures
            final(self).computation is None,
            final(self).parent is None,
            final(self).depth == old(self).depth,
            final(self).frozen == old(self).frozen,
            final(self).completed == old(self).completed,
    {
        self.computation = None;
        self.parent = None;
    }

    /// Acquires the reentrancy guard: marks the task frozen and takes its
    /// computation out for the advance step. From here until
    /// `finish_advance`, further advances of the same task report
    /// `Frozen` instead of touching the computation.
    pub fn begin_advance(&mut self) -> (c: Computation)
        requires
            !old(self).frozen,
            old(self).computation is Some,
        ensures
            old(self).computation == Some(c),
            final(self).frozen,
            final(self).computation is None,
            final(self).parent == old(self).parent,
            final(self).depth == old(self).depth,
            final(self).completed == old(self).completed,
    {
        self.frozen = true;
        match self.computation.take() {
            Some(c) => c,
            None => unreached(),
        }
    }

    /// Releases the reentrancy guard: puts the advanced computation back,
    /// thaws the task, and records completion when the step reported done.
    pub fn finish_advance(&mut self, c: Computation, done: bool)
        requires
            old(self).frozen,
        ensures
            final(self).computation == Some(c),
            !final(self).frozen,
            final(self).parent == old(self).parent,
            final(self).depth == old(self).depth,
            final(self).completed == (old(self).completed || done),
    {
        self.computation = Some(c);
        self.frozen = false;
        if done {
            self.completed = true;
        }
    }

    /// Releases the reentrancy guard after a fatal error below: the advance
    /// never finished, so there is no computation to put back and the task
    /// is left destroyed rather than frozen. The guard is thus released on
    /// every exit path, error exits included.
    pub fn abort_advance(&mut self)
        requires
            old(self).frozen,
        ensures
            !final(self).frozen,
            final(self).computation == old(self).computation,
            final(self).parent == old(self).parent,
            final(self).depth == old(self).depth,
            final(self).completed == old(self).completed,
    {
        self.frozen = false;
    }

    /// Records `parent` as the task's parent and `depth` as the task's own
    /// forest depth, unless a parent is already recorded: the link is set at
    /// most once.
    pub fn assign_parent(&mut self, parent: usize, depth: u64)
        ensures
            final(self).parent == (if old(self).parent is Some {
                old(self).parent
            } else {
                Some(parent)
            }),
            final(self).depth == (if old(self).parent is Some {
                old(self).depth
            } else {
                depth
            }),
            final(self).computation == old(self).computation,
            final(self).frozen == old(self).frozen,
            final(self).completed == old(self).completed,
    {
        if self.parent.is_none() {
            self.parent = Some(parent);
            self.depth = depth;
        }
    }
}

} // verus!
