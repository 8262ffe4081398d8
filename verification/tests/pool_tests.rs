use alog_sink::pool::{PoolSlots, POOL_MAX_SIZE};

#[test]
fn pool_capacity_is_twenty() {
    assert_eq!(POOL_MAX_SIZE, 20);
}

#[test]
fn grants_stop_at_capacity() {
    let mut pool = PoolSlots::new(2);
    assert!(pool.try_acquire());
    assert!(pool.try_acquire());
    assert!(!pool.try_acquire(), "a full pool refuses further leases");
    pool.release();
    assert!(pool.try_acquire(), "a freed slot is granted again");
}

#[test]
fn queued_callers_all_complete_within_capacity() {
    // Five concurrent inserts against a pool of capacity two: each task
    // repeatedly asks for a lease, works, and releases. No more than two
    // leases are ever outstanding, and every task completes.
    let capacity = 2u64;
    let mut pool = PoolSlots::new(capacity);
    let mut waiting: usize = 5;
    let mut holding: Vec<bool> = Vec::new();
    let mut completed: usize = 0;
    let mut max_in_use: u64 = 0;

    while completed < 5 {
        // Waiting tasks ask for a lease.
        while waiting > 0 && pool.try_acquire() {
            waiting -= 1;
            holding.push(true);
        }
        let in_use = capacity - pool.free_slots();
        assert!(in_use <= capacity, "leases never exceed capacity");
        if in_use > max_in_use {
            max_in_use = in_use;
        }
        // Every holder finishes its insert and returns the lease.
        while let Some(_) = holding.pop() {
            pool.release();
            completed += 1;
        }
    }
    assert_eq!(completed, 5, "all queued inserts complete");
    assert_eq!(max_in_use, capacity, "the pool was saturated on the way");
    assert_eq!(pool.free_slots(), capacity, "all leases were returned");
}
