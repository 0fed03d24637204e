use ring_reactor::table::ConnTable;

#[test]
fn new_table_is_all_free_and_inactive() {
    let t = ConnTable::new(3, 16);
    assert_eq!(t.capacity(), 3);
    assert_eq!(t.free_len(), 3);
    assert_eq!(t.buffer_size(), 16);
    for i in 0..3 {
        assert!(!t.is_active(i));
        assert_eq!(t.slot_fd(i), -1);
    }
}

#[test]
fn acquire_activates_and_stores_fd() {
    let mut t = ConnTable::new(2, 16);
    let i = t.acquire(10).expect("slot");
    assert!(t.is_active(i));
    assert_eq!(t.slot_fd(i), 10);
    assert_eq!(t.free_len(), 1);
}

#[test]
fn acquire_exhausts_pool() {
    let mut t = ConnTable::new(2, 16);
    assert!(t.acquire(10).is_some());
    assert!(t.acquire(11).is_some());
    assert!(t.acquire(12).is_none());
    assert_eq!(t.free_len(), 0);
}

#[test]
fn release_returns_fd_once() {
    let mut t = ConnTable::new(2, 16);
    let i = t.acquire(10).expect("slot");
    assert_eq!(t.release(i), Some(10));
    assert!(!t.is_active(i));
    assert_eq!(t.slot_fd(i), -1);
    assert_eq!(t.free_len(), 2);
}

#[test]
fn release_is_idempotent() {
    let mut t = ConnTable::new(2, 16);
    let i = t.acquire(10).expect("slot");
    assert_eq!(t.release(i), Some(10));
    let free_after_one = t.free_len();
    // a second release is a no-op: no handle to close again, no second
    // free-list insertion
    assert_eq!(t.release(i), None);
    assert_eq!(t.free_len(), free_after_one);
    assert!(!t.is_active(i));
    // the slot can still be acquired exactly once more per free entry
    let mut got = 0;
    while t.acquire(20).is_some() {
        got += 1;
    }
    assert_eq!(got, 2);
}

#[test]
fn free_xor_active_counts() {
    // every slot is either free or active, never both and never neither,
    // so the counts always add up to the capacity
    let mut t = ConnTable::new(4, 8);
    let mut active = Vec::new();
    assert_eq!(t.free_len(), 4);
    for fd in [5, 6, 7] {
        let i = t.acquire(fd).expect("slot");
        active.push(i);
        let n_active = (0..4).filter(|&q| t.is_active(q)).count();
        assert_eq!(n_active + t.free_len(), 4);
    }
    for &i in &active {
        t.release(i);
        let n_active = (0..4).filter(|&q| t.is_active(q)).count();
        assert_eq!(n_active + t.free_len(), 4);
    }
}

#[test]
fn fill_buffer_stores_prefix() {
    let mut t = ConnTable::new(1, 8);
    let i = t.acquire(9).expect("slot");
    let data = vec![1u8, 2, 3];
    t.fill_buffer(i, &data);
    assert_eq!(t.slot_buf_len(i), 3);
    assert_eq!(&t.slot_buffer(i)[..3], &[1, 2, 3]);
    assert_eq!(t.slot_buffer(i).len(), 8);
}

#[test]
fn released_slot_is_reused() {
    let mut t = ConnTable::new(1, 8);
    let i = t.acquire(3).expect("slot");
    assert!(t.acquire(4).is_none());
    t.release(i);
    let j = t.acquire(4).expect("slot");
    assert_eq!(i, j);
    assert_eq!(t.slot_fd(j), 4);
}
