use toy_rt::reactor::{EventId, Reactor, Timer, Wait};

#[test]
fn wait_returns_earliest_deadline() {
    let mut r = Reactor::new();
    let a = r.add_timer(0, 300);
    let b = r.add_timer(0, 100);
    let c = r.add_timer(0, 200);
    assert_eq!(r.pending(), 3);
    let w = r.wait().unwrap();
    assert_eq!(w.event_id, b);
    assert_eq!(r.now_ms(), 100);
    let w = r.wait().unwrap();
    assert_eq!(w.event_id, c);
    assert_eq!(r.now_ms(), 200);
    let w = r.wait().unwrap();
    assert_eq!(w.event_id, a);
    assert_eq!(r.now_ms(), 300);
    assert!(r.wait().is_none());
    assert_eq!(r.now_ms(), 300);
}

#[test]
fn wait_breaks_ties_by_registration_order() {
    let mut r = Reactor::new();
    let first = r.add_timer(7, 100);
    let second = r.add_timer(8, 100);
    let w = r.wait().unwrap();
    assert_eq!(w.event_id, first);
    assert_eq!(w.task, 7);
    let w = r.wait().unwrap();
    assert_eq!(w.event_id, second);
    assert_eq!(w.task, 8);
}

#[test]
fn wait_does_not_move_the_clock_backwards() {
    let mut r = Reactor::new();
    r.add_timer(0, 500);
    let early = r.add_timer(0, 100);
    r.wait().unwrap();
    assert_eq!(r.now_ms(), 100);
    // this timer's deadline is 100 + 200 = 300, before the pending 500 one
    let mid = r.add_timer(0, 200);
    let w = r.wait().unwrap();
    assert_eq!(w.event_id, mid);
    assert_ne!(w.event_id, early);
    assert_eq!(r.now_ms(), 300);
    r.wait().unwrap();
    assert_eq!(r.now_ms(), 500);
}

#[test]
fn cancel_removes_exactly_that_timer() {
    let mut r = Reactor::new();
    let a = r.add_timer(1, 100);
    let b = r.add_timer(2, 200);
    r.cancel_timer(a);
    assert_eq!(r.pending(), 1);
    let w = r.wait().unwrap();
    assert_eq!(w.event_id, b);
    assert_eq!(w.task, 2);
    assert_eq!(r.pending(), 0);
}

#[test]
fn timer_ids_are_monotone_and_never_reused() {
    let mut r = Reactor::new();
    let a = r.add_timer(0, 10);
    let b = r.add_timer(0, 20);
    assert_eq!(a.0, 1);
    assert_eq!(b.0, 2);
    r.wait().unwrap();
    r.cancel_timer(b);
    let c = r.add_timer(0, 30);
    assert_eq!(c.0, 3);
    assert_eq!(r.minted(), 3);
}

#[test]
fn deadline_saturates_at_the_top_of_the_clock() {
    let mut r = Reactor::new();
    r.add_timer(0, u64::MAX);
    let w = r.wait();
    assert!(w.is_some());
    assert_eq!(r.now_ms(), u64::MAX);
}

#[test]
fn wake_notification_and_timer_carry_their_parts() {
    let w = Wait::new(EventId(5), 3);
    assert_eq!(w.event_id, EventId(5));
    assert_eq!(w.task, 3);
    let t = Timer::new(EventId(9), 4, 1234);
    assert_eq!(t.event_id.0, 9);
    assert_eq!(t.task, 4);
    assert_eq!(t.awake_on, 1234);
}
