use toy_rt::computation::{Computation, RtJoin2, Sleep, SleepState, Step};
use toy_rt::reactor::{EventId, Reactor};
use toy_rt::runtime::{RtError, Runtime, TaskPoll};
use toy_rt::task::Task;
use toy_rt::{make_join2, nested_loop, sleep};

#[test]
fn task_flags_parent_and_destroy() {
    let mut t = Task::new(sleep(5));
    assert!(!t.is_frozen());
    assert!(!t.is_completed());
    assert!(t.parent.is_none());
    t.assign_parent(0, 1);
    assert_eq!(t.parent, Some(0));
    assert_eq!(t.depth, 1);
    // the parent link is set at most once
    t.assign_parent(7, 9);
    assert_eq!(t.parent, Some(0));
    assert_eq!(t.depth, 1);
    t.destroy();
    assert!(t.computation.is_none());
    assert!(t.parent.is_none());
}

#[test]
fn completed_task_polls_ready_without_reentering() {
    let mut rt = Runtime::new();
    let t = rt.allocate(sleep(5));
    assert!(matches!(rt.poll(t, 16), Ok(TaskPoll::Pending)));
    let w = rt.reactor.wait().unwrap();
    rt.awoken_event = Some(w.event_id);
    assert!(matches!(rt.poll(t, 16), Ok(TaskPoll::Ready)));
    assert!(rt.task(t).is_completed());
    // advancing a completed task is idempotent: Ready again, nothing touched
    assert!(matches!(rt.poll(t, 16), Ok(TaskPoll::Ready)));
    assert!(rt.task(t).is_completed());
    assert_eq!(rt.reactor.minted(), 1);
    // once destroyed, a stale wake for it is a benign no-op
    rt.destroy_task(t);
    assert!(matches!(rt.poll(t, 16), Ok(TaskPoll::Gone)));
    assert!(rt.task(t).computation.is_none());
}

#[test]
fn stale_wake_leaves_a_sleep_pending() {
    let mut rt = Runtime::new();
    let t = rt.allocate(sleep(5));
    assert!(matches!(rt.poll(t, 16), Ok(TaskPoll::Pending)));
    rt.awoken_event = Some(EventId(999));
    assert!(matches!(rt.poll(t, 16), Ok(TaskPoll::Pending)));
    assert!(!rt.task(t).is_completed());
}

#[test]
fn sleep_schedule_complete_and_cancel() {
    let mut reactor = Reactor::new();
    let mut s = Sleep::new(50);
    assert!(matches!(s.schedule(&mut reactor, 0, 50), Step::Pending));
    assert_eq!(reactor.pending(), 1);
    assert!(matches!(s.state, SleepState::Armed { .. }));
    s.cancel(&mut reactor);
    assert_eq!(reactor.pending(), 0);

    let mut s2 = Sleep::new(10);
    s2.schedule(&mut reactor, 0, 10);
    assert!(matches!(s2.complete(false), Step::Pending));
    assert!(matches!(s2.state, SleepState::Armed { .. }));
    assert!(matches!(s2.complete(true), Step::Ready));
    assert!(matches!(s2.state, SleepState::Done));
}

#[test]
fn join2_completion_flags() {
    let c = make_join2(sleep(1), sleep(2));
    match c {
        Computation::Join(j) => {
            assert!(!j.is_completed());
            assert!(!j.fut1_done);
            assert!(!j.fut2_done);
        },
        _ => panic!("expected a plain join"),
    }
}

#[test]
fn rt_join_spawns_two_root_tasks_at_construction() {
    let mut rt = Runtime::new();
    let join = RtJoin2::new(&mut rt, sleep(1), sleep(2));
    // exactly two fresh root tasks, no timers registered yet
    assert_eq!(rt.task_count(), 2);
    assert_eq!(join.task1, 0);
    assert_eq!(join.task2, 1);
    assert!(rt.task(0).parent.is_none());
    assert!(rt.task(1).parent.is_none());
    assert!(!rt.task(0).is_completed());
    assert_eq!(rt.reactor().minted(), 0);
    assert!(!join.is_completed(&rt));
    rt.tasks[join.task1].completed = true;
    assert!(!join.is_completed(&rt));
    rt.tasks[join.task2].completed = true;
    assert!(join.is_completed(&rt));
}

#[test]
fn nesting_budget_exhaustion_is_reported() {
    let mut rt = Runtime::new();
    let r = rt.nested_loop(nested_loop(sleep(1)), 0);
    assert!(matches!(r, Err(RtError::BudgetExhausted)));
}

#[test]
fn starved_reactor_is_fatal() {
    let mut rt = Runtime::new();
    // an already-armed sleep whose timer the reactor never knew about:
    // nothing can ever wake it
    let orphan = Computation::Sleep(Sleep { state: SleepState::Armed { event_id: EventId(7) } });
    assert!(matches!(rt.nested_loop(orphan, 16), Err(RtError::Starved)));
}

#[test]
fn advancing_a_done_computation_is_fatal() {
    let mut rt = Runtime::new();
    let done = Computation::Sleep(Sleep { state: SleepState::Done });
    assert!(matches!(rt.nested_loop(done, 16), Err(RtError::DoublePoll)));
}

#[test]
fn foreign_tasks_in_a_join_are_fatal() {
    let c = Computation::SpawningJoin(RtJoin2 { task1: 3, task2: 4 });
    assert!(matches!(toy_rt::run(c), Err(RtError::ForeignTask)));
}

#[test]
fn timer_id_exhaustion_is_fatal() {
    let mut rt = Runtime::new();
    rt.reactor.inner.last_event_id = u64::MAX;
    assert!(matches!(rt.nested_loop(sleep(1), 16), Err(RtError::TimerIdsExhausted)));
}

#[test]
fn frozen_task_is_not_reentered() {
    let mut rt = Runtime::new();
    let t = rt.allocate(sleep(5));
    // simulate the state mid-advance: guard held, computation taken out
    rt.tasks[t].frozen = true;
    let taken = rt.tasks[t].computation.take();
    assert!(taken.is_some());
    assert!(matches!(rt.poll(t, 16), Ok(TaskPoll::Frozen)));
    assert!(rt.task(t).is_frozen());
    assert!(!rt.task(t).is_completed());
}

#[test]
fn wakes_climb_to_the_highest_unfrozen_ancestor() {
    let mut rt = Runtime::new();
    let root = rt.allocate(sleep(1));
    let mid = rt.allocate(sleep(2));
    let leaf = rt.allocate(sleep(3));
    rt.tasks[mid].parent = Some(root);
    rt.tasks[mid].depth = 1;
    rt.tasks[leaf].parent = Some(mid);
    rt.tasks[leaf].depth = 2;
    // nothing frozen: the wake for the leaf is delivered at the root
    assert_eq!(rt.first_unfrozen_parent(leaf), root);
    // with the root mid-advance, the climb stops below it
    rt.tasks[root].frozen = true;
    rt.tasks[root].computation.take();
    assert_eq!(rt.first_unfrozen_parent(leaf), mid);
    // a frozen task keeps its own wake: it is queued, not redirected
    rt.tasks[mid].frozen = true;
    rt.tasks[mid].computation.take();
    assert_eq!(rt.first_unfrozen_parent(mid), mid);
}
