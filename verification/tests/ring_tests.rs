use ring_reactor::ring::{wait_action, Cqe, Ring, WaitAction, INTERRUPTED, WOULD_BLOCK};

fn cqe(tag: u64) -> Cqe {
    Cqe { user_data: tag, res: 0 }
}

#[test]
fn backpressure_refuses_at_capacity() {
    let mut r: Ring<Cqe> = Ring::new(4, cqe(0));
    for i in 0..4u64 {
        assert!(r.submit(cqe(i)));
    }
    // the ring is at capacity: submission must refuse, not block or grow
    assert!(!r.submit(cqe(99)));
    assert_eq!(r.outstanding(), 4);
    // draining one makes room for exactly one
    assert!(r.pop().is_some());
    assert!(r.submit(cqe(4)));
    assert!(!r.submit(cqe(5)));
}

#[test]
fn round_trip_restores_cursors() {
    let mut r: Ring<Cqe> = Ring::new(8, cqe(0));
    assert!(r.cursors_match());
    for i in 0..5u64 {
        assert!(r.submit(cqe(i)));
    }
    assert!(!r.cursors_match());
    let mut seen = Vec::new();
    for _ in 0..5 {
        seen.push(r.pop().expect("entry").user_data);
    }
    // every entry comes back, in order, exactly once
    assert_eq!(seen, vec![0, 1, 2, 3, 4]);
    // and the cursors coincide again
    assert!(r.cursors_match());
    assert_eq!(r.outstanding(), 0);
    assert!(r.pop().is_none());
}

#[test]
fn fifo_order_across_wraparound() {
    // push/pop far past the ring size so the cursors wrap the ring many times
    let mut r: Ring<Cqe> = Ring::new(4, cqe(0));
    let mut next: u64 = 0;
    let mut expect: u64 = 0;
    for _ in 0..50 {
        assert!(r.submit(cqe(next)));
        next += 1;
        assert!(r.submit(cqe(next)));
        next += 1;
        assert_eq!(r.pop().expect("entry").user_data, expect);
        expect += 1;
        assert_eq!(r.pop().expect("entry").user_data, expect);
        expect += 1;
    }
    assert!(r.cursors_match());
}

#[test]
fn pop_on_empty_is_none() {
    let mut r: Ring<u64> = Ring::new(1, 0u64);
    assert!(r.pop().is_none());
    assert!(r.submit(7));
    assert!(!r.submit(8));
    assert_eq!(r.pop(), Some(7));
    assert!(r.pop().is_none());
}

#[test]
fn ring_entries_reports_capacity() {
    let r: Ring<u64> = Ring::new(16, 0u64);
    assert_eq!(r.ring_entries(), 16);
}

#[test]
fn wait_action_tiers() {
    // non-negative results proceed
    assert_eq!(wait_action(0), WaitAction::Proceed);
    assert_eq!(wait_action(7), WaitAction::Proceed);
    // interrupted and would-block results are transient
    assert_eq!(wait_action(INTERRUPTED), WaitAction::Retry);
    assert_eq!(wait_action(WOULD_BLOCK), WaitAction::Retry);
    // every other negative result is fatal
    assert_eq!(wait_action(-1), WaitAction::Fatal);
    assert_eq!(wait_action(-32), WaitAction::Fatal);
    assert_eq!(wait_action(i32::MIN), WaitAction::Fatal);
}
