//! Counters, idle queue, pending markers and the acquisition state machine.
//!
//! `PoolInner` is the aggregate the pool's one lock protects: how many
//! resources are live (`spawned`), markers for creations in flight
//! (`pending`), the idle resources themselves, and the registry of suspended
//! acquirers. `PoolLock` exposes the state transitions executed under the
//! lock; `PoolLockFuture` is one acquirer's poll/cancel state machine. A
//! returned wake handle is to be invoked by the caller after releasing the
//! lock.
//!
//! Timestamps and wake handles are plain values here: the caller supplies
//! the current time as a tick count and any type it likes for wake handles.

use std::collections::VecDeque;
use vstd::prelude::*;

use crate::waiters::contains_key;
use crate::waiters::first_waiting;
use crate::waiters::key_index;
use crate::waiters::keys_sorted;
use crate::waiters::Entry;
use crate::waiters::WakerList;

verus! {

/// Decrement floored at zero: a decrement on zero is a no-op.
pub open spec fn sat_dec(n: nat) -> nat {
    if n == 0 {
        0
    } else {
        (n - 1) as nat
    }
}

/// Marker recording when a resource-creation attempt began.
#[derive(Debug, Clone, Copy)]
pub struct Pending {
    start_from: u64,
}

impl Pending {
    /// When the creation attempt this marker stands for began.
    pub closed spec fn spec_start_from(&self) -> u64 {
        self.start_from
    }

    /// A marker for a creation attempt that began at `start_from`.
    pub fn new(start_from: u64) -> (r: Self)
        ensures
            r.spec_start_from() == start_from,
    {
        Pending { start_from }
    }

    /// Whether this creation attempt is stuck: more than six connection
    /// timeouts have elapsed since it began.
    pub fn should_remove(&self, now: u64, connection_timeout: u64) -> (r: bool)
        ensures
            r == (now > self.spec_start_from() + 6 * connection_timeout),
    {
        (now as u128) > (self.start_from as u128) + 6u128 * (connection_timeout as u128)
    }
}

/// The aggregate the pool's one lock protects. `T` is the idle resource,
/// `W` the wake handle handed back for notification.
pub struct PoolInner<T, W> {
    spawned: u8,
    max_size: u8,
    pending: VecDeque<Pending>,
    conn: VecDeque<T>,
    waiters: WakerList<W>,
}

impl<T, W> PoolInner<T, W> {
    /// Count of resources that have finished creation and are live.
    pub closed spec fn spec_spawned(&self) -> u8 {
        self.spawned
    }

    /// The capacity the pool was created with.
    pub closed spec fn spec_max_size(&self) -> u8 {
        self.max_size
    }

    /// The queue of pending creation markers, oldest first.
    pub closed spec fn spec_pending(&self) -> Seq<Pending> {
        self.pending@
    }

    /// The queue of idle resources, oldest first.
    pub closed spec fn spec_conn(&self) -> Seq<T> {
        self.conn@
    }

    /// The registered waiter entries, oldest first.
    pub closed spec fn spec_waiters(&self) -> Seq<Entry<W>> {
        self.waiters@
    }

    /// The key the next waiter registration will allocate.
    pub closed spec fn spec_next_key(&self) -> usize {
        self.waiters.spec_next_key()
    }

    /// The pool never over-provisions: live resources plus creations in
    /// flight stay within capacity, only live resources sit idle, and the
    /// waiter registry is well formed.
    pub open spec fn inv(&self) -> bool {
        &&& self.spec_spawned() + self.spec_pending().len() <= self.spec_max_size()
        &&& self.spec_conn().len() <= self.spec_spawned()
        &&& keys_sorted(self.spec_waiters())
        &&& forall|i: int|
            0 <= i < self.spec_waiters().len() ==> (#[trigger] self.spec_waiters()[i].key)
                < self.spec_next_key()
        &&& self.spec_next_key() >= 1
    }

    /// All parts other than the counters: idle queue, waiters and capacity.
    pub open spec fn same_but_counters(&self, other: &Self) -> bool {
        &&& self.spec_max_size() == other.spec_max_size()
        &&& self.spec_conn() == other.spec_conn()
        &&& self.spec_waiters() == other.spec_waiters()
        &&& self.spec_next_key() == other.spec_next_key()
    }

    /// Decrement the live-resource count, floored at zero: a resource that
    /// never should have counted does not drive the count negative.
    pub fn decr_spawned_inner(&mut self)
        requires
            old(self).inv(),
            old(self).spec_spawned() > 0 ==> old(self).spec_conn().len() < old(
                self,
            ).spec_spawned(),
        ensures
            final(self).inv(),
            final(self).spec_spawned() == sat_dec(old(self).spec_spawned() as nat),
            final(self).spec_pending() == old(self).spec_pending(),
            final(self).same_but_counters(old(self)),
    {
        if self.spawned != 0 {
            self.spawned = self.spawned - 1;
        }
    }

    /// Pop `count` pending markers from the front, oldest first; popping
    /// past the end is a no-op.
    pub fn decr_pending_inner(&mut self, count: u8)
        requires
            old(self).inv(),
        ensures
            final(self).inv(),
            final(self).spec_pending() == old(self).spec_pending().skip(
                if count as int <= old(self).spec_pending().len() {
                    count as int
                } else {
                    old(self).spec_pending().len() as int
                },
            ),
            final(self).spec_spawned() == old(self).spec_spawned(),
            final(self).same_but_counters(old(self)),
    {
        let ghost orig = old(self).spec_pending();
        let mut i: u8 = 0;
        while i < count
            invariant
                i <= count,
                self.spawned == old(self).spawned,
                self.max_size == old(self).max_size,
                self.conn@ == old(self).conn@,
                self.waiters == old(self).waiters,
                self.pending@ == orig.skip(
                    if i as int <= orig.len() {
                        i as int
                    } else {
                        orig.len() as int
                    },
                ),
            decreases count - i,
        {
            let ghost k: int = if i as int <= orig.len() {
                i as int
            } else {
                orig.len() as int
            };
            let popped = self.pending.pop_front();
            proof {
                if k < orig.len() {
                    assert(self.pending@ =~= orig.skip(k + 1));
                }
            }
            i = i + 1;
        }
    }

    /// Live resources plus creations in flight.
    pub fn total(&self) -> (r: u8)
        requires
            self.inv(),
        ensures
            r == self.spec_spawned() + self.spec_pending().len(),
    {
        self.spawned + self.pending.len() as u8
    }

    /// Enqueue `count` fresh pending markers stamped `now`.
    pub fn incr_pending_inner(&mut self, count: u8, now: u64)
        requires
            old(self).inv(),
            old(self).spec_spawned() + old(self).spec_pending().len() + count <= old(
                self,
            ).spec_max_size(),
        ensures
            final(self).inv(),
            final(self).spec_pending().len() == old(self).spec_pending().len() + count,
            forall|j: int|
                0 <= j < old(self).spec_pending().len() ==> final(self).spec_pending()[j] == old(
                    self,
                ).spec_pending()[j],
            forall|j: int|
                old(self).spec_pending().len() <= j < final(self).spec_pending().len() ==> (
                #[trigger] final(self).spec_pending()[j]).spec_start_from() == now,
            final(self).spec_spawned() == old(self).spec_spawned(),
            final(self).same_but_counters(old(self)),
    {
        let mut i: u8 = 0;
        while i < count
            invariant
                i <= count,
                self.spawned == old(self).spawned,
                self.max_size == old(self).max_size,
                self.conn@ == old(self).conn@,
                self.waiters == old(self).waiters,
                self.pending@.len() == old(self).pending@.len() + i,
                forall|j: int|
                    0 <= j < old(self).pending@.len() ==> self.pending@[j] == old(
                        self,
                    ).pending@[j],
                forall|j: int|
                    old(self).pending@.len() <= j < self.pending@.len() ==> (
                    #[trigger] self.pending@[j]).spec_start_from() == now,
            decreases count - i,
        {
            self.pending.push_back(Pending::new(now));
            i = i + 1;
        }
    }
}

/// What one poll step decided: a resource was acquired, or the acquirer
/// suspended, having asked for one new creation to be scheduled or not.
pub enum PollOutcome<T> {
    Ready(T),
    NotReady { spawn_requested: bool },
}

/// One acquirer's state: the key of its waiter slot while suspended, and
/// whether it completed by acquiring a resource.
pub struct PoolLockFuture {
    wait_key: Option<usize>,
    acquired: bool,
}

impl PoolLockFuture {
    /// The waiter-slot key held while suspended.
    pub closed spec fn spec_wait_key(&self) -> Option<usize> {
        self.wait_key
    }

    /// Whether this acquirer completed by acquiring a resource.
    pub closed spec fn spec_acquired(&self) -> bool {
        self.acquired
    }

    /// A held waiter key is registered in the pool it waits on.
    pub open spec fn wf_with<T, W>(&self, pool: &PoolLock<T, W>) -> bool {
        self.spec_wait_key() matches Some(k) ==> contains_key(pool.spec_waiters(), k)
    }

    /// One poll step, executed under the pool's lock. Takes the front idle
    /// resource when one is there (deregistering this waiter); otherwise
    /// enqueues one pending marker stamped `now` when capacity allows —
    /// the caller must then schedule one creation, or roll the marker back
    /// with `decr_pending(1)` if scheduling fails — and registers `waker`:
    /// a first suspension inserts a new slot, a re-poll refills the slot
    /// only if a weak notify had emptied it, so a notification in flight is
    /// never clobbered.
    pub fn poll<T, W>(&mut self, pool: &mut PoolLock<T, W>, waker: W, now: u64) -> (r: PollOutcome<
        T,
    >)
        requires
            old(pool).inv(),
            old(self).wf_with(old(pool)),
            !old(self).spec_acquired(),
            old(pool).spec_next_key() < usize::MAX,
        ensures
            final(pool).inv(),
            final(self).wf_with(final(pool)),
            final(pool).spec_max_size() == old(pool).spec_max_size(),
            if old(pool).spec_conn().len() > 0 {
                // ready: the front idle resource is handed over and this
                // waiter is deregistered
                &&& r matches PollOutcome::Ready(c) && c == old(pool).spec_conn()[0]
                &&& final(pool).spec_conn() == old(pool).spec_conn().drop_first()
                &&& final(pool).spec_spawned() == old(pool).spec_spawned()
                &&& final(pool).spec_pending() == old(pool).spec_pending()
                &&& final(pool).spec_next_key() == old(pool).spec_next_key()
                &&& (match old(self).spec_wait_key() {
                    Some(k) => final(pool).spec_waiters() == old(pool).spec_waiters().remove(
                        key_index(old(pool).spec_waiters(), k),
                    ),
                    None => final(pool).spec_waiters() == old(pool).spec_waiters(),
                })
                &&& final(self).spec_wait_key() is None
                &&& final(self).spec_acquired()
            } else {
                // not ready: maybe one creation triggered, then suspend
                &&& r == (PollOutcome::NotReady::<T> {
                    spawn_requested: old(pool).spec_spawned() + old(pool).spec_pending().len()
                        < old(pool).spec_max_size(),
                })
                &&& final(pool).spec_conn() == old(pool).spec_conn()
                &&& final(pool).spec_spawned() == old(pool).spec_spawned()
                &&& (if old(pool).spec_spawned() + old(pool).spec_pending().len() < old(
                    pool,
                ).spec_max_size() {
                    &&& final(pool).spec_pending().len() == old(pool).spec_pending().len() + 1
                    &&& forall|j: int|
                        0 <= j < old(pool).spec_pending().len() ==> #[trigger] final(
                            pool).spec_pending()[j] == old(pool).spec_pending()[j]
                    &&& final(pool).spec_pending().last().spec_start_from() == now
                } else {
                    final(pool).spec_pending() == old(pool).spec_pending()
                })
                &&& !final(self).spec_acquired()
                &&& (match old(self).spec_wait_key() {
                    None => {
                        &&& final(self).spec_wait_key() == Some(old(pool).spec_next_key())
                        &&& final(pool).spec_waiters() == old(pool).spec_waiters().push(
                            (Entry { key: old(pool).spec_next_key(), waker: Some(waker) }),
                        )
                        &&& final(pool).spec_next_key() == old(pool).spec_next_key() + 1
                    },
                    Some(k) => {
                        &&& final(self).spec_wait_key() == Some(k)
                        &&& final(pool).spec_next_key() == old(pool).spec_next_key()
                        &&& ({
                            let i = key_index(old(pool).spec_waiters(), k);
                            if old(pool).spec_waiters()[i].waker is None {
                                final(pool).spec_waiters() == old(pool).spec_waiters().update(
                                    i,
                                    (Entry { key: k, waker: Some(waker) }),
                                )
                            } else {
                                final(pool).spec_waiters() == old(pool).spec_waiters()
                            }
                        })
                    },
                })
            },
    {
        // a resource is there: take it and deregister
        if let Some(conn) = pool.inner.conn.pop_front() {
            if let Some(wait_key) = self.wait_key {
                let _ = pool.inner.waiters.remove(wait_key);
                self.wait_key = None;
            }
            self.acquired = true;
            return PollOutcome::Ready(conn);
        }

        // none idle: trigger one creation while capacity allows
        let spawn_requested = if pool.inner.total() < pool.inner.max_size {
            pool.inner.incr_pending_inner(1, now);
            true
        } else {
            false
        };

        // register for notification, without clobbering one in flight
        match self.wait_key {
            Some(wait_key) => {
                let ghost s0 = pool.spec_waiters();
                pool.inner.waiters.update_if_empty(wait_key, waker);
                proof {
                    let i = key_index(s0, wait_key);
                    assert(pool.spec_waiters()[i].key == wait_key);
                    assert(contains_key(pool.spec_waiters(), wait_key));
                }
            },
            None => {
                let wait_key = pool.inner.waiters.insert(Some(waker));
                self.wait_key = Some(wait_key);
                proof {
                    assert(contains_key(pool.spec_waiters(), wait_key)) by {
                        assert(pool.spec_waiters()[pool.spec_waiters().len() - 1].key
                            == wait_key);
                    }
                }
            },
        }

        PollOutcome::NotReady { spawn_requested }
    }

    /// Cancellation, run when an acquirer is discarded before completing:
    /// deregister its slot. When the removed slot was already empty — a
    /// weak notify had picked this waiter — and no resource was acquired,
    /// that notification would be lost, so the next waiter is weakly
    /// notified instead; the returned handle is to be invoked by the caller
    /// after releasing the lock.
    pub fn cancel<T, W>(&mut self, pool: &mut PoolLock<T, W>) -> (w: Option<W>)
        requires
            old(pool).inv(),
            old(self).wf_with(old(pool)),
        ensures
            final(pool).inv(),
            final(self).spec_wait_key() is None,
            final(self).spec_acquired() == old(self).spec_acquired(),
            final(pool).spec_conn() == old(pool).spec_conn(),
            final(pool).spec_spawned() == old(pool).spec_spawned(),
            final(pool).spec_pending() == old(pool).spec_pending(),
            final(pool).spec_max_size() == old(pool).spec_max_size(),
            final(pool).spec_next_key() == old(pool).spec_next_key(),
            (match old(self).spec_wait_key() {
                None => w is None && final(pool).spec_waiters() == old(pool).spec_waiters(),
                Some(k) => {
                    let i = key_index(old(pool).spec_waiters(), k);
                    let removed = old(pool).spec_waiters()[i].waker;
                    let s1 = old(pool).spec_waiters().remove(i);
                    if removed is Some || old(self).spec_acquired() {
                        w is None && final(pool).spec_waiters() == s1
                    } else {
                        let j = first_waiting(s1);
                        if j == -1 {
                            w is None && final(pool).spec_waiters() == s1
                        } else {
                            &&& w == s1[j].waker
                            &&& w is Some
                            &&& final(pool).spec_waiters() == s1.update(
                                j,
                                (Entry { key: s1[j].key, waker: None }),
                            )
                        }
                    }
                },
            }),
    {
        match self.wait_key {
            Some(wait_key) => {
                let removed = pool.inner.waiters.remove(wait_key);
                self.wait_key = None;
                if removed.is_none() && !self.acquired {
                    // we were weakly notified but never re-polled: pass the
                    // notification on so it is not lost
                    pool.inner.waiters.wake_one_weak()
                } else {
                    None
                }
            },
            None => None,
        }
    }
}

/// Point-in-time snapshot of the pool's counters for diagnostics.
#[derive(Debug)]
pub struct State {
    pub connections: u8,
    pub idle_connections: u8,
    pub pending_connections: Vec<Pending>,
}

/// The pool's state-transition operations, each one executed while the
/// owning lock is held.
pub struct PoolLock<T, W> {
    inner: PoolInner<T, W>,
}

impl<T, W> PoolLock<T, W> {
    /// The protected aggregate.
    pub closed spec fn spec_inner(&self) -> PoolInner<T, W> {
        self.inner
    }

    /// Count of resources that have finished creation and are live.
    pub open spec fn spec_spawned(&self) -> u8 {
        self.spec_inner().spec_spawned()
    }

    /// The capacity the pool was created with.
    pub open spec fn spec_max_size(&self) -> u8 {
        self.spec_inner().spec_max_size()
    }

    /// The queue of pending creation markers, oldest first.
    pub open spec fn spec_pending(&self) -> Seq<Pending> {
        self.spec_inner().spec_pending()
    }

    /// The queue of idle resources, oldest first.
    pub open spec fn spec_conn(&self) -> Seq<T> {
        self.spec_inner().spec_conn()
    }

    /// The registered waiter entries, oldest first.
    pub open spec fn spec_waiters(&self) -> Seq<Entry<W>> {
        self.spec_inner().spec_waiters()
    }

    /// The key the next waiter registration will allocate.
    pub open spec fn spec_next_key(&self) -> usize {
        self.spec_inner().spec_next_key()
    }

    /// The pool invariant; see `PoolInner::inv`.
    pub open spec fn inv(&self) -> bool {
        self.spec_inner().inv()
    }

    /// An empty pool with capacity `pool_size`.
    pub fn new(pool_size: usize) -> (r: Self)
        requires
            pool_size <= u8::MAX,
        ensures
            r.inv(),
            r.spec_spawned() == 0,
            r.spec_max_size() == pool_size,
            r.spec_pending() == Seq::<Pending>::empty(),
            r.spec_conn() == Seq::<T>::empty(),
            r.spec_waiters() == Seq::<Entry<W>>::empty(),
            r.spec_next_key() == 1,
    {
        PoolLock {
            inner: PoolInner {
                spawned: 0,
                max_size: pool_size as u8,
                pending: VecDeque::with_capacity(pool_size),
                conn: VecDeque::with_capacity(pool_size),
                waiters: WakerList::new(),
            },
        }
    }

    /// Live resources plus creations in flight after a saturating decrement
    /// of the live count: the total handed to `decr_spawned`'s policy.
    pub open spec fn spec_total_after_decr(&self) -> u8 {
        (sat_dec(self.spec_spawned() as nat) + self.spec_pending().len()) as u8
    }

    /// Decrement the live-resource count (floored at zero), then let the
    /// supplied replenishment policy see the new total in the same critical
    /// section; when it asks for `n` new resources, `n` pending markers
    /// stamped `now` are enqueued and `Some(n)` is returned so the caller
    /// can trigger that many creations.
    pub fn decr_spawned<F: FnOnce(u8) -> Option<u8>>(&mut self, now: u64, try_spawn: F) -> (r:
        Option<u8>)
        requires
            old(self).inv(),
            old(self).spec_spawned() > 0 ==> old(self).spec_conn().len() < old(
                self,
            ).spec_spawned(),
            call_requires(try_spawn, (old(self).spec_total_after_decr(),)),
            forall|res: Option<u8>|
                call_ensures(try_spawn, (old(self).spec_total_after_decr(),), res) ==> (
                res matches Some(n) ==> old(self).spec_total_after_decr() + n <= old(
                    self,
                ).spec_max_size()),
        ensures
            final(self).inv(),
            final(self).spec_spawned() == sat_dec(old(self).spec_spawned() as nat),
            final(self).spec_inner().same_but_counters(&old(self).spec_inner()),
            call_ensures(try_spawn, (old(self).spec_total_after_decr(),), r),
            r is None ==> final(self).spec_pending() == old(self).spec_pending(),
            r matches Some(n) ==> {
                &&& final(self).spec_pending().len() == old(self).spec_pending().len() + n
                &&& forall|j: int|
                    0 <= j < old(self).spec_pending().len() ==> final(self).spec_pending()[j]
                        == old(self).spec_pending()[j]
                &&& forall|j: int|
                    old(self).spec_pending().len() <= j < final(self).spec_pending().len() ==> (
                    #[trigger] final(self).spec_pending()[j]).spec_start_from() == now
            },
    {
        self.inner.decr_spawned_inner();
        let total = self.inner.total();
        match try_spawn(total) {
            Some(pending_new) => {
                self.inner.incr_pending_inner(pending_new, now);
                Some(pending_new)
            },
            None => None,
        }
    }

    /// Pop `count` pending markers from the front, oldest first.
    pub fn decr_pending(&mut self, count: u8)
        requires
            old(self).inv(),
        ensures
            final(self).inv(),
            final(self).spec_pending() == old(self).spec_pending().skip(
                if count as int <= old(self).spec_pending().len() {
                    count as int
                } else {
                    old(self).spec_pending().len() as int
                },
            ),
            final(self).spec_spawned() == old(self).spec_spawned(),
            final(self).spec_inner().same_but_counters(&old(self).spec_inner()),
    {
        self.inner.decr_pending_inner(count);
    }

    /// Remove every pending marker the predicate matches, visiting each
    /// marker exactly once and keeping the others in order. The predicate
    /// must answer the same for equal markers (`should_drop` is a pure test,
    /// e.g. staleness against a cutoff).
    pub fn drop_pendings<F: Fn(&Pending) -> bool>(&mut self, should_drop: F)
        requires
            old(self).inv(),
            forall|p: &Pending| call_requires(should_drop, (p,)),
            forall|p: &Pending, b1: bool, b2: bool|
                call_ensures(should_drop, (p,), b1) && call_ensures(should_drop, (p,), b2)
                    ==> b1 == b2,
        ensures
            final(self).inv(),
            final(self).spec_pending() == old(self).spec_pending().filter(
                (|p: Pending| !call_ensures(should_drop, (&p,), true)),
            ),
            final(self).spec_spawned() == old(self).spec_spawned(),
            final(self).spec_inner().same_but_counters(&old(self).spec_inner()),
    {
        let ghost keep = |p: Pending| !call_ensures(should_drop, (&p,), true);
        let ghost orig = old(self).spec_pending();
        let n = self.inner.pending.len();
        let mut kept: VecDeque<Pending> = VecDeque::new();
        let mut i: usize = 0;
        while i < n
            invariant
                forall|p: &Pending| call_requires(should_drop, (p,)),
                forall|p: &Pending, b1: bool, b2: bool|
                    call_ensures(should_drop, (p,), b1) && call_ensures(should_drop, (p,), b2)
                        ==> b1 == b2,
                keep == (|p: Pending| !call_ensures(should_drop, (&p,), true)),
                orig == old(self).spec_pending(),
                n == orig.len(),
                i <= n,
                self.inner.spawned == old(self).spec_inner().spawned,
                self.inner.max_size == old(self).spec_inner().max_size,
                self.inner.conn@ == old(self).spec_inner().conn@,
                self.inner.waiters == old(self).spec_inner().waiters,
                self.inner.pending@ == orig.skip(i as int),
                kept@ == orig.take(i as int).filter(keep),
            decreases n - i,
        {
            let p = self.inner.pending.pop_front().unwrap();
            proof {
                assert(p == orig[i as int]);
                assert(self.inner.pending@ =~= orig.skip(i as int + 1));
                reveal(Seq::filter);
                assert(orig.take(i as int + 1).drop_last() =~= orig.take(i as int));
                assert(orig.take(i as int + 1).last() == orig[i as int]);
            }
            if !should_drop(&p) {
                kept.push_back(p);
            }
            i = i + 1;
        }
        proof {
            assert(orig.take(n as int) =~= orig);
        }
        self.inner.pending = kept;
    }

    /// A predicate-driven sweep of the idle queue: evict every idle
    /// resource the predicate matches (each eviction also uncounts a live
    /// resource), then — when the remaining total of live plus in-flight
    /// resources falls below `min_idle` — enqueue the difference as pending
    /// markers stamped `now` and return it so the caller can trigger that
    /// many creations. The predicate must answer the same for equal
    /// resources.
    pub fn try_drop_conns<F: Fn(&T) -> bool>(&mut self, min_idle: u8, should_drop: F, now: u64)
        -> (r: Option<u8>)
        requires
            old(self).inv(),
            min_idle <= old(self).spec_max_size(),
            forall|c: &T| call_requires(should_drop, (c,)),
            forall|c: &T, b1: bool, b2: bool|
                call_ensures(should_drop, (c,), b1) && call_ensures(should_drop, (c,), b2)
                    ==> b1 == b2,
        ensures
            final(self).inv(),
            final(self).spec_conn() == old(self).spec_conn().filter(
                (|c: T| !call_ensures(should_drop, (&c,), true)),
            ),
            final(self).spec_spawned() == old(self).spec_spawned() - (old(self).spec_conn().len()
                - final(self).spec_conn().len()),
            final(self).spec_waiters() == old(self).spec_waiters(),
            final(self).spec_next_key() == old(self).spec_next_key(),
            final(self).spec_max_size() == old(self).spec_max_size(),
            ({
                let total_now = final(self).spec_spawned() + old(self).spec_pending().len();
                if total_now < min_idle {
                    &&& r == Some((min_idle - total_now) as u8)
                    &&& final(self).spec_pending().len() == min_idle - final(self).spec_spawned()
                    &&& forall|j: int|
                        0 <= j < old(self).spec_pending().len() ==> #[trigger] final(
                            self).spec_pending()[j] == old(self).spec_pending()[j]
                    &&& forall|j: int|
                        old(self).spec_pending().len() <= j < final(self).spec_pending().len()
                            ==> (#[trigger] final(self).spec_pending()[j]).spec_start_from()
                            == now
                } else {
                    r is None && final(self).spec_pending() == old(self).spec_pending()
                }
            }),
    {
        let ghost keep = |c: T| !call_ensures(should_drop, (&c,), true);
        let ghost orig = old(self).spec_conn();
        let n = self.inner.conn.len();
        let mut kept: VecDeque<T> = VecDeque::new();
        let mut evicted: usize = 0;
        let mut i: usize = 0;
        while i < n
            invariant
                forall|c: &T| call_requires(should_drop, (c,)),
                forall|c: &T, b1: bool, b2: bool|
                    call_ensures(should_drop, (c,), b1) && call_ensures(should_drop, (c,), b2)
                        ==> b1 == b2,
                keep == (|c: T| !call_ensures(should_drop, (&c,), true)),
                orig == old(self).spec_conn(),
                n == orig.len(),
                i <= n,
                evicted + kept@.len() == i,
                self.inner.spawned == old(self).spec_inner().spawned,
                self.inner.max_size == old(self).spec_inner().max_size,
                self.inner.pending@ == old(self).spec_inner().pending@,
                self.inner.waiters == old(self).spec_inner().waiters,
                self.inner.conn@ == orig.skip(i as int),
                kept@ == orig.take(i as int).filter(keep),
            decreases n - i,
        {
            let c = self.inner.conn.pop_front().unwrap();
            proof {
                assert(self.inner.conn@ =~= orig.skip(i as int + 1));
                reveal(Seq::filter);
                assert(orig.take(i as int + 1).drop_last() =~= orig.take(i as int));
                assert(orig.take(i as int + 1).last() == orig[i as int]);
            }
            if should_drop(&c) {
                evicted = evicted + 1;
            } else {
                kept.push_back(c);
            }
            i = i + 1;
        }
        proof {
            assert(orig.take(n as int) =~= orig);
        }
        self.inner.conn = kept;
        // every evicted resource was idle and idle resources are live, so
        // the decrement never reaches below zero
        self.inner.spawned = self.inner.spawned - evicted as u8;

        let total_now = self.inner.total();
        if total_now < min_idle {
            let pending_new = min_idle - total_now;
            self.inner.incr_pending_inner(pending_new, now);
            Some(pending_new)
        } else {
            None
        }
    }

    /// Return a resource to the idle queue, then take the oldest registered
    /// wake handle for the caller to invoke after releasing the lock. The
    /// notified slot stays registered (a weak notify): the woken acquirer
    /// must re-poll and may find the queue already emptied by a racer.
    pub fn put_back(&mut self, conn: T) -> (w: Option<W>)
        requires
            old(self).inv(),
            old(self).spec_conn().len() < old(self).spec_spawned(),
        ensures
            final(self).inv(),
            final(self).spec_conn() == old(self).spec_conn().push(conn),
            final(self).spec_spawned() == old(self).spec_spawned(),
            final(self).spec_pending() == old(self).spec_pending(),
            final(self).spec_max_size() == old(self).spec_max_size(),
            final(self).spec_next_key() == old(self).spec_next_key(),
            ({
                let i = first_waiting(old(self).spec_waiters());
                if i == -1 {
                    w is None && final(self).spec_waiters() == old(self).spec_waiters()
                } else {
                    &&& w == old(self).spec_waiters()[i].waker
                    &&& w is Some
                    &&& final(self).spec_waiters() == old(self).spec_waiters().update(
                        i,
                        (Entry { key: old(self).spec_waiters()[i].key, waker: None }),
                    )
                }
            }),
    {
        self.inner.conn.push_back(conn);
        self.inner.waiters.wake_one_weak()
    }

    /// Record that a freshly created resource resolved: drop one pending
    /// marker, and add the resource to the idle queue (counting it live)
    /// only while capacity allows — a race that shrank the pool in the
    /// meantime makes the resource be dropped instead. Then weakly notify
    /// one waiter as `put_back` does.
    pub fn put_back_incr_spawned(&mut self, conn: T) -> (w: Option<W>)
        requires
            old(self).inv(),
        ensures
            final(self).inv(),
            final(self).spec_pending() == old(self).spec_pending().skip(
                if old(self).spec_pending().len() == 0 {
                    0
                } else {
                    1
                },
            ),
            ({
                if old(self).spec_spawned() < old(self).spec_max_size() {
                    &&& final(self).spec_conn() == old(self).spec_conn().push(conn)
                    &&& final(self).spec_spawned() == old(self).spec_spawned() + 1
                } else {
                    &&& final(self).spec_conn() == old(self).spec_conn()
                    &&& final(self).spec_spawned() == old(self).spec_spawned()
                }
            }),
            final(self).spec_max_size() == old(self).spec_max_size(),
            final(self).spec_next_key() == old(self).spec_next_key(),
            ({
                let i = first_waiting(old(self).spec_waiters());
                if i == -1 {
                    w is None && final(self).spec_waiters() == old(self).spec_waiters()
                } else {
                    &&& w == old(self).spec_waiters()[i].waker
                    &&& w is Some
                    &&& final(self).spec_waiters() == old(self).spec_waiters().update(
                        i,
                        (Entry { key: old(self).spec_waiters()[i].key, waker: None }),
                    )
                }
            }),
    {
        self.inner.decr_pending_inner(1);
        if self.inner.spawned < self.inner.max_size {
            self.inner.conn.push_back(conn);
            self.inner.spawned = self.inner.spawned + 1;
        }
        self.inner.waiters.wake_one_weak()
    }

    /// A fresh acquisition future for this pool: unregistered, nothing
    /// acquired yet.
    pub fn lock(&self) -> (r: PoolLockFuture)
        ensures
            r.spec_wait_key() is None,
            !r.spec_acquired(),
    {
        PoolLockFuture { wait_key: None, acquired: false }
    }

    /// Snapshot of the counters; read-only.
    pub fn state(&self) -> (r: State)
        requires
            self.inv(),
        ensures
            r.connections == self.spec_spawned(),
            r.idle_connections == self.spec_conn().len(),
            r.pending_connections@ == self.spec_pending(),
    {
        let n = self.inner.pending.len();
        let mut pendings: Vec<Pending> = Vec::new();
        let mut i: usize = 0;
        while i < n
            invariant
                n == self.inner.spec_pending().len(),
                i <= n,
                pendings@ == self.inner.spec_pending().take(i as int),
            decreases n - i,
        {
            pendings.push(self.inner.pending[i]);
            proof {
                assert(pendings@ =~= self.inner.spec_pending().take(i as int + 1));
            }
            i = i + 1;
        }
        proof {
            assert(self.inner.spec_pending().take(n as int) =~= self.inner.spec_pending());
        }
        State {
            connections: self.inner.spawned,
            idle_connections: self.inner.conn.len() as u8,
            pending_connections: pendings,
        }
    }
}

} // verus!
