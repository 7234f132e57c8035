use toy_rt::runtime::NESTING_BUDGET;
use toy_rt::{chain, make_join2, make_rt_join2, nested_loop, run, sleep, Runtime};

#[test]
fn single_sleep_under_run() {
    let rt = run(sleep(1000)).unwrap();
    // at least the requested virtual time elapsed
    assert!(rt.reactor().now_ms() >= 1000);
    assert_eq!(rt.reactor().now_ms(), 1000);
    // exactly one timer was registered, and it was consumed
    assert_eq!(rt.reactor().minted(), 1);
    assert_eq!(rt.reactor().pending(), 0);
    // the sole root task reached done
    assert_eq!(rt.task_count(), 1);
    assert!(rt.task(0).is_completed());
}

#[test]
fn zero_duration_sleep_still_goes_through_the_reactor() {
    let rt = run(sleep(0)).unwrap();
    assert_eq!(rt.reactor().now_ms(), 0);
    assert_eq!(rt.reactor().minted(), 1);
    assert!(rt.task(0).is_completed());
}

#[test]
fn sleep_resumed_and_nested_loop_in_sequence() {
    let rt = run(chain(sleep(1000), nested_loop(sleep(1000)))).unwrap();
    // the outer computation resumed only once the inner loop was drained
    assert_eq!(rt.reactor().now_ms(), 2000);
    assert_eq!(rt.reactor().minted(), 2);
    assert!(rt.task(0).is_completed());
    // the nested loop's root task completed and was destroyed
    assert_eq!(rt.task_count(), 2);
    assert!(rt.task(1).is_completed());
    assert!(rt.task(1).computation.is_none());
}

#[test]
fn chained_sleeps_accumulate() {
    let rt = run(chain(sleep(100), chain(sleep(50), sleep(25)))).unwrap();
    assert_eq!(rt.reactor().now_ms(), 175);
    assert_eq!(rt.reactor().minted(), 3);
    assert!(rt.task(0).is_completed());
}

#[test]
fn spawning_join_with_a_nested_loop_in_one_child() {
    let mut rt = Runtime::new();
    let b = chain(sleep(1000), nested_loop(sleep(2000)));
    let c = make_rt_join2(&mut rt, sleep(2000), b);
    let root = rt.task_count();
    rt.nested_loop(c, NESTING_BUDGET).unwrap();
    // B runs two consecutive waits, so three virtual seconds pass in all
    assert_eq!(rt.reactor().now_ms(), 3000);
    assert!(rt.task(root).is_completed());
    // both child tasks completed before the join reported done
    assert!(rt.task(0).is_completed());
    assert!(rt.task(1).is_completed());
    // and their owner destroyed them once done
    assert!(rt.task(0).computation.is_none());
    assert!(rt.task(1).computation.is_none());
}

#[test]
fn plain_join_defers_wakes_across_a_nested_loop() {
    let b = chain(sleep(1000), nested_loop(sleep(2000)));
    let rt = run(make_join2(sleep(2000), b)).unwrap();
    // the wake for the outer join fired while its task was frozen inside the
    // nested loop; it was queued, replayed after the loop exited, and the
    // join still completed correctly
    assert_eq!(rt.reactor().now_ms(), 3000);
    assert!(rt.task(0).is_completed());
    // no deferred wake was dropped: the queue drained before the run ended
    assert_eq!(rt.frozen_events.len(), 0);
}

#[test]
fn plain_and_spawning_join_agree_without_nested_loops() {
    let a = run(make_join2(sleep(2000), sleep(1000))).unwrap();
    let mut b = Runtime::new();
    let c = make_rt_join2(&mut b, sleep(2000), sleep(1000));
    let root = b.task_count();
    b.nested_loop(c, NESTING_BUDGET).unwrap();
    assert_eq!(a.reactor().now_ms(), 2000);
    assert_eq!(b.reactor().now_ms(), 2000);
    assert!(a.task(0).is_completed());
    assert!(b.task(root).is_completed());
    assert_eq!(a.reactor().minted(), b.reactor().minted());
    assert_eq!(a.reactor().pending(), 0);
    assert_eq!(b.reactor().pending(), 0);
}

#[test]
fn join_tree_with_nested_loops() {
    let mut rt = Runtime::new();
    let leaf1 = chain(sleep(1000), nested_loop(sleep(1000)));
    let leaf2 = sleep(2000);
    let leaf3 = sleep(3000);
    let leaf4 = chain(sleep(4000), nested_loop(sleep(1000)));
    let tree1 = make_rt_join2(&mut rt, leaf1, leaf2);
    let tree2 = make_rt_join2(&mut rt, leaf3, leaf4);
    let c = make_rt_join2(&mut rt, tree1, tree2);
    let root = rt.task_count();
    rt.nested_loop(c, NESTING_BUDGET).unwrap();
    // the slowest path is leaf4: four seconds, one more inside its loop
    assert_eq!(rt.reactor().now_ms(), 5000);
    assert!(rt.task(root).is_completed());
    assert_eq!(rt.frozen_events.len(), 0);
}

#[test]
fn whole_forest_inside_a_nested_loop() {
    let mut rt = Runtime::new();
    let leaf1 = chain(sleep(1000), nested_loop(sleep(1000)));
    let leaf2 = sleep(2000);
    let leaf3 = sleep(3000);
    let leaf4 = chain(sleep(4000), nested_loop(sleep(1000)));
    let tree1 = make_rt_join2(&mut rt, leaf1, leaf2);
    let tree2 = make_rt_join2(&mut rt, leaf3, leaf4);
    let forest = make_rt_join2(&mut rt, tree1, tree2);
    let root = rt.task_count();
    rt.nested_loop(nested_loop(forest), NESTING_BUDGET).unwrap();
    assert_eq!(rt.reactor().now_ms(), 5000);
    // the wrapper task around the nested loop completed
    assert!(rt.task(root).is_completed());
}
