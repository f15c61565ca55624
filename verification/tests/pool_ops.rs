use pool_core::pool_inner::{Pending, PollOutcome, PoolLock};

fn expect_not_ready(r: PollOutcome<u32>) -> bool {
    match r {
        PollOutcome::Ready(_) => panic!("expected suspension"),
        PollOutcome::NotReady { spawn_requested } => spawn_requested,
    }
}

fn expect_ready(r: PollOutcome<u32>) -> u32 {
    match r {
        PollOutcome::Ready(c) => c,
        PollOutcome::NotReady { .. } => panic!("expected an acquired resource"),
    }
}

/// Decrementing the spawned count more times than resources were ever
/// spawned floors it at zero.
#[test]
fn decr_spawned_saturates_at_zero() {
    let mut pool: PoolLock<u32, u32> = PoolLock::new(3);
    assert_eq!(pool.decr_spawned(0, |_total| None), None);
    assert_eq!(pool.state().connections, 0);
    assert_eq!(pool.decr_spawned(0, |_total| None), None);
    let st = pool.state();
    assert_eq!(st.connections, 0);
    assert_eq!(st.pending_connections.len(), 0);
}

/// The replenishment policy handed to `decr_spawned` sees the new total in
/// the same step and its requested count is enqueued as pending markers.
#[test]
fn decr_spawned_runs_replenish_policy() {
    let mut pool: PoolLock<u32, u32> = PoolLock::new(2);
    let mut f0 = pool.lock();
    assert!(expect_not_ready(f0.poll(&mut pool, 1, 0)));
    assert_eq!(pool.put_back_incr_spawned(4), Some(1));
    assert_eq!(expect_ready(f0.poll(&mut pool, 1, 1)), 4);
    // the checked-out resource fails to come back: uncount it, and let the
    // policy replenish up to one resource
    let r = pool.decr_spawned(5, |total| if total < 1 { Some(1 - total) } else { None });
    assert_eq!(r, Some(1));
    let st = pool.state();
    assert_eq!(st.connections, 0);
    assert_eq!(st.pending_connections.len(), 1);
}

/// A failed creation scheduling is rolled back in the same operation: the
/// pending count returns to its value before the optimistic increment.
#[test]
fn rollback_restores_pending_after_failed_spawn() {
    let mut pool: PoolLock<u32, u32> = PoolLock::new(1);
    assert_eq!(pool.state().pending_connections.len(), 0);
    let mut f0 = pool.lock();
    assert!(expect_not_ready(f0.poll(&mut pool, 1, 0)));
    assert_eq!(pool.state().pending_connections.len(), 1);
    // scheduling the creation failed synchronously: undo the increment
    pool.decr_pending(1);
    assert_eq!(pool.state().pending_connections.len(), 0);
    assert_eq!(f0.cancel(&mut pool), None);
}

/// `decr_pending` pops oldest first and popping past the end is a no-op.
#[test]
fn decr_pending_pops_oldest_and_saturates() {
    let mut pool: PoolLock<u32, u32> = PoolLock::new(2);
    let mut f1 = pool.lock();
    let mut f2 = pool.lock();
    assert!(expect_not_ready(f1.poll(&mut pool, 1, 10)));
    assert!(expect_not_ready(f2.poll(&mut pool, 2, 20)));
    assert_eq!(pool.state().pending_connections.len(), 2);
    pool.decr_pending(5);
    assert_eq!(pool.state().pending_connections.len(), 0);
    pool.decr_pending(1);
    assert_eq!(pool.state().pending_connections.len(), 0);
    assert_eq!(f1.cancel(&mut pool), None);
    assert_eq!(f2.cancel(&mut pool), None);
}

/// `drop_pendings` removes exactly the markers the predicate matches and
/// keeps the rest in order.
#[test]
fn drop_pendings_removes_stale_markers() {
    let mut pool: PoolLock<u32, u32> = PoolLock::new(2);
    let mut f1 = pool.lock();
    let mut f2 = pool.lock();
    // one marker stamped 0, one stamped 100
    assert!(expect_not_ready(f1.poll(&mut pool, 1, 0)));
    assert!(expect_not_ready(f2.poll(&mut pool, 2, 100)));
    assert_eq!(pool.state().pending_connections.len(), 2);

    // at time 100 with a timeout of 5, only the marker stamped 0 is stuck
    pool.drop_pendings(|p: &Pending| p.should_remove(100, 5));
    let st = pool.state();
    assert_eq!(st.pending_connections.len(), 1);
    assert!(!st.pending_connections[0].should_remove(100, 5));

    // an always-true predicate clears the queue
    pool.drop_pendings(|_p: &Pending| true);
    assert_eq!(pool.state().pending_connections.len(), 0);

    assert_eq!(f1.cancel(&mut pool), None);
    assert_eq!(f2.cancel(&mut pool), None);
}

/// A pending marker is stuck exactly when more than six connection
/// timeouts have elapsed since it was stamped.
#[test]
fn should_remove_six_timeouts_boundary() {
    let p = Pending::new(100);
    assert!(!p.should_remove(100, 100));
    assert!(!p.should_remove(700, 100)); // exactly 6 timeouts later: not yet
    assert!(p.should_remove(701, 100));
    // near the numeric limit the comparison still holds without wrapping
    let q = Pending::new(u64::MAX);
    assert!(!q.should_remove(u64::MAX, u64::MAX));
}

/// `try_drop_conns` evicts matching idle resources, uncounts each, and
/// reports no replenishment when the total still reaches `min_idle`.
#[test]
fn try_drop_conns_evicts_and_uncounts() {
    let mut pool: PoolLock<u32, u32> = PoolLock::new(2);
    let mut f1 = pool.lock();
    let mut f2 = pool.lock();
    assert!(expect_not_ready(f1.poll(&mut pool, 1, 0)));
    assert!(expect_not_ready(f2.poll(&mut pool, 2, 0)));
    assert_eq!(pool.put_back_incr_spawned(31), Some(1));
    assert_eq!(pool.put_back_incr_spawned(32), Some(2));
    assert_eq!(expect_ready(f1.poll(&mut pool, 1, 1)), 31);
    assert_eq!(expect_ready(f2.poll(&mut pool, 2, 1)), 32);
    assert_eq!(pool.put_back(31), None);
    assert_eq!(pool.put_back(32), None);
    let st = pool.state();
    assert_eq!(st.connections, 2);
    assert_eq!(st.idle_connections, 2);

    // evict just resource 31; one live resource remains, meeting min_idle=1
    let r = pool.try_drop_conns(1, |c: &u32| *c == 31, 50);
    assert_eq!(r, None);
    let st = pool.state();
    assert_eq!(st.connections, 1);
    assert_eq!(st.idle_connections, 1);
    assert_eq!(st.pending_connections.len(), 0);

    // the surviving resource is still the one the predicate spared
    let mut f3 = pool.lock();
    assert_eq!(expect_ready(f3.poll(&mut pool, 3, 51)), 32);
}

/// When a completed creation finds the pool already at capacity, the
/// resource is dropped instead of being counted or queued.
#[test]
fn put_back_incr_spawned_respects_capacity() {
    let mut pool: PoolLock<u32, u32> = PoolLock::new(1);
    let mut f0 = pool.lock();
    assert!(expect_not_ready(f0.poll(&mut pool, 1, 0)));
    assert_eq!(pool.put_back_incr_spawned(61), Some(1));
    assert_eq!(f0.cancel(&mut pool), None);
    let st = pool.state();
    assert_eq!(st.connections, 1);
    assert_eq!(st.idle_connections, 1);

    // capacity is 1 and one resource is live: a straggler creation result
    // is discarded
    assert_eq!(pool.put_back_incr_spawned(62), None);
    let st = pool.state();
    assert_eq!(st.connections, 1);
    assert_eq!(st.idle_connections, 1);
    assert_eq!(st.pending_connections.len(), 0);
}

/// A suspended acquirer that re-polls spuriously does not clobber its
/// stored wake handle; after a weak notify the re-poll refills the slot.
#[test]
fn repoll_refills_slot_only_after_notify() {
    let mut pool: PoolLock<u32, u32> = PoolLock::new(1);
    let mut f0 = pool.lock();
    assert!(expect_not_ready(f0.poll(&mut pool, 1, 0)));
    assert_eq!(pool.put_back_incr_spawned(8), Some(1));
    assert_eq!(expect_ready(f0.poll(&mut pool, 1, 1)), 8);

    let mut f1 = pool.lock();
    let mut f2 = pool.lock();
    assert!(!expect_not_ready(f1.poll(&mut pool, 41, 2)));
    // spurious re-poll with a newer handle: the stored one stays
    assert!(!expect_not_ready(f1.poll(&mut pool, 42, 3)));
    assert!(!expect_not_ready(f2.poll(&mut pool, 43, 3)));
    assert_eq!(pool.put_back(8), Some(41));

    // f2 races f0's notification and takes the resource
    assert_eq!(expect_ready(f2.poll(&mut pool, 43, 4)), 8);
    // f1 re-polls after its notify: finds nothing, refills its slot
    assert!(!expect_not_ready(f1.poll(&mut pool, 44, 4)));
    assert_eq!(pool.put_back(8), Some(44));
    assert_eq!(expect_ready(f1.poll(&mut pool, 44, 5)), 8);
}

/// The snapshot reports exactly the counters: connections, idle and the
/// pending markers.
#[test]
fn state_snapshot_reports_counters() {
    let mut pool: PoolLock<u32, u32> = PoolLock::new(3);
    let st = pool.state();
    assert_eq!(st.connections, 0);
    assert_eq!(st.idle_connections, 0);
    assert_eq!(st.pending_connections.len(), 0);

    let mut f0 = pool.lock();
    assert!(expect_not_ready(f0.poll(&mut pool, 1, 0)));
    assert_eq!(pool.put_back_incr_spawned(71), Some(1));
    assert_eq!(expect_ready(f0.poll(&mut pool, 1, 1)), 71);
    let mut f1 = pool.lock();
    assert!(expect_not_ready(f1.poll(&mut pool, 2, 9)));
    assert_eq!(pool.put_back(71), Some(2));
    let st = pool.state();
    assert_eq!(st.connections, 1);
    assert_eq!(st.idle_connections, 1);
    assert_eq!(st.pending_connections.len(), 1);
    assert!(!st.pending_connections[0].should_remove(9, 1000));
    assert_eq!(f1.cancel(&mut pool), None);
}
