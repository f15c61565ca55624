//! Laws the pool obeys, stated and proved over its models.
//!
//! The capacity invariant itself (live plus in-flight resources never
//! exceed capacity, and only live resources sit idle) is `PoolInner::inv`,
//! required and re-established by every operation; the laws here state what
//! follows from chaining those operations.

use vstd::prelude::*;

use crate::pool_inner::sat_dec;
use crate::pool_inner::Pending;
use crate::waiters::contains_key;
use crate::waiters::first_waiting;
use crate::waiters::key_index;
use crate::waiters::keys_sorted;
use crate::waiters::lemma_first_waiting;
use crate::waiters::lemma_key_index_at;
use crate::waiters::Entry;

verus! {

/// The live-resource count after `k` saturating decrements.
pub open spec fn sat_dec_iter(n: nat, k: nat) -> nat
    decreases k,
{
    if k == 0 {
        n
    } else {
        sat_dec(sat_dec_iter(n, (k - 1) as nat))
    }
}

/// Saturating decrement: decrementing the live-resource count any number
/// of times — in particular more times than resources were ever spawned —
/// floors it at zero and never underflows.
pub proof fn lemma_saturating_decrement(n: nat, k: nat)
    ensures
        sat_dec_iter(n, k) == if k >= n {
            0
        } else {
            n - k
        },
    decreases k,
{
    if k > 0 {
        lemma_saturating_decrement(n, (k - 1) as nat);
    }
}

/// Rollback on failed spawn: a poll that optimistically enqueued one
/// pending marker, undone by one front pop when scheduling the creation
/// fails synchronously, leaves the pending count exactly as it was before
/// the increment.
pub proof fn lemma_rollback_restores_pending_count(s: Seq<Pending>, p: Pending)
    ensures
        s.push(p).drop_first().len() == s.len(),
{
}

/// No lost wakeup, the cancellation step: `s` is the waiter registry after
/// a returned resource weakly notified the waiter keyed `k` (its slot is
/// empty but still registered). If that waiter is now cancelled without
/// having acquired — its slot is removed and found empty — the follow-up
/// weak notification still finds a populated slot whenever any other
/// waiter is registered live, so the wakeup the resource owes is passed on
/// rather than lost.
pub proof fn lemma_no_lost_wakeup<W>(s: Seq<Entry<W>>, k: usize)
    requires
        keys_sorted(s),
        contains_key(s, k),
        s[key_index(s, k)].waker is None,
        exists|j: int| #![trigger s[j]] 0 <= j < s.len() && s[j].key != k && s[j].waker is Some,
    ensures
        first_waiting(s.remove(key_index(s, k))) != -1,
{
    let i = key_index(s, k);
    assert(0 <= i < s.len() && s[i].key == k);
    let j = choose|j: int|
        #![trigger s[j]]
        0 <= j < s.len() && s[j].key != k && s[j].waker is Some;
    let t = s.remove(i);
    if j < i {
        assert(t[j] == s[j]);
        assert(t[j].waker is Some);
    } else {
        assert(t[j - 1] == s[j]);
        assert(t[j - 1].waker is Some);
    }
    lemma_first_waiting(t);
}

/// No lost wakeup, end to end: `s` is the waiter registry when a resource
/// is returned. The return weakly notifies the oldest populated slot
/// (position `first_waiting(s)`, as `put_back` ensures), emptying it but
/// leaving it registered. If that very waiter is then cancelled before
/// re-polling, while some other populated slot exists, the cancellation's
/// follow-up weak notification still finds a populated slot: the wakeup
/// the returned resource owes reaches a live waiter.
pub proof fn lemma_notify_then_cancel_wakes_another<W>(s: Seq<Entry<W>>)
    requires
        keys_sorted(s),
        first_waiting(s) >= 0,
        exists|j: int|
            #![trigger s[j]]
            0 <= j < s.len() && j != first_waiting(s) && s[j].waker is Some,
    ensures
        ({
            // the registry after the weak notify, then after the notified
            // waiter's slot is removed by its cancellation
            let i = first_waiting(s);
            let k = s[i].key;
            let notified = s.update(i, (Entry { key: k, waker: None }));
            first_waiting(notified.remove(key_index(notified, k))) != -1
        }),
{
    let i = first_waiting(s);
    let k = s[i].key;
    lemma_first_waiting(s);
    let notified = s.update(i, (Entry { key: k, waker: None }));
    assert(keys_sorted(notified));
    lemma_key_index_at(notified, k, i);
    assert(contains_key(notified, k));
    let j = choose|j: int|
        #![trigger s[j]]
        0 <= j < s.len() && j != i && s[j].waker is Some;
    assert(notified[j] == s[j]);
    assert(notified[j].key != k);
    lemma_no_lost_wakeup(notified, k);
}

/// At most one acquisition per resource: successive acquisitions take the
/// front of the idle queue, so with two acquirers the first receives the
/// resource at position 0, the second the one at position 1, and those two
/// together with what remains queued make up the original queue exactly —
/// no resource is handed to two acquirers.
pub proof fn lemma_at_most_one_acquisition<T>(conns: Seq<T>)
    requires
        conns.len() >= 2,
    ensures
        conns.drop_first()[0] == conns[1],
        conns.drop_first().drop_first() == conns.skip(2),
        conns == seq![conns[0], conns[1]] + conns.skip(2),
{
    assert(conns.drop_first().drop_first() =~= conns.skip(2));
    assert(conns =~= seq![conns[0], conns[1]] + conns.skip(2));
}

} // verus!
