//! Slot-keyed registry of suspended acquirers, oldest first.
//!
//! Each suspended acquirer owns one entry: a stable key plus a slot that may
//! hold a wake handle. A weak notification takes the handle out of the oldest
//! populated slot but leaves the entry in place, so the notified acquirer can
//! still be told apart from one that was never notified when it cancels.

use vstd::prelude::*;

verus! {

/// One registration: a stable key and the slot that may hold a wake handle.
pub struct Entry<W> {
    pub key: usize,
    pub waker: Option<W>,
}

/// Registry of waiter entries in registration order with strictly
/// increasing keys.
pub struct WakerList<W> {
    entries: Vec<Entry<W>>,
    next_key: usize,
}

/// Whether some entry of `s` carries the key `k`.
pub open spec fn contains_key<W>(s: Seq<Entry<W>>, k: usize) -> bool {
    exists|i: int| 0 <= i < s.len() && s[i].key == k
}

/// The position of the entry carrying key `k` (unique when keys are sorted).
pub open spec fn key_index<W>(s: Seq<Entry<W>>, k: usize) -> int {
    choose|i: int| 0 <= i < s.len() && s[i].key == k
}

/// The position of the oldest entry whose slot still holds a wake handle,
/// or -1 when every slot is empty.
pub open spec fn first_waiting<W>(s: Seq<Entry<W>>) -> int
    decreases s.len(),
{
    if s.len() == 0 {
        -1
    } else if s[0].waker is Some {
        0
    } else {
        let r = first_waiting(s.drop_first());
        if r < 0 {
            -1
        } else {
            r + 1
        }
    }
}

/// Keys strictly increase along the sequence.
pub open spec fn keys_sorted<W>(s: Seq<Entry<W>>) -> bool {
    forall|i: int, j: int|
        0 <= i < j < s.len() ==> #[trigger] s[i].key < #[trigger] s[j].key
}

/// `first_waiting` finds exactly the oldest populated slot: it is -1 just
/// when no slot is populated, and otherwise points at a populated slot with
/// only empty slots before it.
pub proof fn lemma_first_waiting<W>(s: Seq<Entry<W>>)
    ensures
        first_waiting(s) == -1 <==> (forall|i: int|
            0 <= i < s.len() ==> (#[trigger] s[i].waker) is None),
        first_waiting(s) != -1 ==> {
            &&& 0 <= first_waiting(s) < s.len()
            &&& s[first_waiting(s)].waker is Some
            &&& forall|i: int| 0 <= i < first_waiting(s) ==> (#[trigger] s[i].waker) is None
        },
    decreases s.len(),
{
    if s.len() == 0 {
    } else if s[0].waker is Some {
    } else {
        let t = s.drop_first();
        lemma_first_waiting(t);
        if first_waiting(s) == -1 {
            assert forall|i: int| 0 <= i < s.len() implies (#[trigger] s[i].waker) is None by {
                if i >= 1 {
                    assert(t[i - 1].waker is None);
                    assert(t[i - 1] == s[i]);
                }
            }
        } else {
            let f = first_waiting(s);
            assert(s[f] == t[f - 1]);
            assert forall|i: int| 0 <= i < f implies (#[trigger] s[i].waker) is None by {
                if i >= 1 {
                    assert(t[i - 1].waker is None);
                    assert(t[i - 1] == s[i]);
                }
            }
        }
        if forall|i: int| 0 <= i < s.len() ==> (#[trigger] s[i].waker) is None {
            assert forall|i: int| 0 <= i < t.len() implies (#[trigger] t[i].waker) is None by {
                assert(t[i] == s[i + 1]);
            }
            assert(first_waiting(t) == -1);
        }
    }
}

/// When `s[i]` is populated and every slot before it is empty, `i` is the
/// index that `first_waiting` picks.
pub proof fn lemma_first_waiting_at<W>(s: Seq<Entry<W>>, i: int)
    requires
        0 <= i < s.len(),
        s[i].waker is Some,
        forall|j: int| 0 <= j < i ==> (#[trigger] s[j].waker) is None,
    ensures
        first_waiting(s) == i,
    decreases i,
{
    if i == 0 {
    } else {
        assert(forall|j: int|
            0 <= j < i - 1 ==> s.drop_first()[j] == #[trigger] s[j + 1]);
        lemma_first_waiting_at(s.drop_first(), i - 1);
    }
}

/// With sorted keys, at most one entry carries a given key, so `key_index`
/// names the position of any matching entry.
pub proof fn lemma_key_index_at<W>(s: Seq<Entry<W>>, k: usize, i: int)
    requires
        keys_sorted(s),
        0 <= i < s.len(),
        s[i].key == k,
    ensures
        key_index(s, k) == i,
{
    let j = key_index(s, k);
    assert(0 <= j < s.len() && s[j].key == k);
    if i < j {
        assert(s[i].key < s[j].key);
    }
    if j < i {
        assert(s[j].key < s[i].key);
    }
}

impl<W> View for WakerList<W> {
    type V = Seq<Entry<W>>;

    closed spec fn view(&self) -> Seq<Entry<W>> {
        self.entries@
    }
}

impl<W> WakerList<W> {
    /// The key the next insertion will allocate.
    pub closed spec fn spec_next_key(&self) -> usize {
        self.next_key
    }

    /// Well-formed: keys strictly increase (so each is unique and older
    /// entries stand first), all stay below the next key to allocate, and
    /// keys start at 1.
    pub open spec fn wf(&self) -> bool {
        &&& keys_sorted(self@)
        &&& forall|i: int|
            0 <= i < self@.len() ==> (#[trigger] self@[i].key) < self.spec_next_key()
        &&& self.spec_next_key() >= 1
    }

    /// An empty registry.
    pub fn new() -> (r: Self)
        ensures
            r.wf(),
            r@ == Seq::<Entry<W>>::empty(),
            r.spec_next_key() == 1,
    {
        WakerList { entries: Vec::new(), next_key: 1 }
    }

    /// Register a new waiter slot; the returned key is stable until removed.
    pub fn insert(&mut self, w: Option<W>) -> (key: usize)
        requires
            old(self).wf(),
            old(self).spec_next_key() < usize::MAX,
        ensures
            final(self).wf(),
            key == old(self).spec_next_key(),
            final(self)@ == old(self)@.push(Entry { key, waker: w }),
            final(self).spec_next_key() == key + 1,
    {
        let key = self.next_key;
        self.next_key = self.next_key + 1;
        self.entries.push(Entry { key, waker: w });
        key
    }

    /// Position of the entry carrying `key`.
    fn index_of(&self, key: usize) -> (r: usize)
        requires
            self.wf(),
            contains_key(self@, key),
        ensures
            r < self@.len(),
            self@[r as int].key == key,
            r as int == key_index(self@, key),
    {
        let n = self.entries.len();
        let mut i: usize = 0;
        while i < n
            invariant
                self.wf(),
                contains_key(self@, key),
                n == self@.len(),
                i <= n,
                forall|j: int| 0 <= j < i ==> (#[trigger] self@[j].key) != key,
            decreases n - i,
        {
            if self.entries[i].key == key {
                proof {
                    lemma_key_index_at(self@, key, i as int);
                }
                return i;
            }
            i = i + 1;
        }
        proof {
            let w = choose|j: int| 0 <= j < self@.len() && self@[j].key == key;
            assert(self@[w].key != key);
        }
        0
    }

    /// Deregister the entry carrying `key`, returning whatever its slot
    /// still held: `Some` means nobody ever weakly notified this waiter.
    pub fn remove(&mut self, key: usize) -> (w: Option<W>)
        requires
            old(self).wf(),
            contains_key(old(self)@, key),
        ensures
            final(self).wf(),
            final(self)@ == old(self)@.remove(key_index(old(self)@, key)),
            w == old(self)@[key_index(old(self)@, key)].waker,
            final(self).spec_next_key() == old(self).spec_next_key(),
    {
        let i = self.index_of(key);
        let e = self.entries.remove(i);
        proof {
            let s = old(self)@;
            let ii = i as int;
            assert(forall|a: int|
                0 <= a < ii ==> s.remove(ii)[a] == #[trigger] s[a]);
            assert(forall|a: int|
                ii <= a < s.len() - 1 ==> s.remove(ii)[a] == #[trigger] s[a + 1]);
        }
        e.waker
    }

    /// Store `w` in the slot carrying `key`, but only when that slot is
    /// empty: a handle already stored there is a notification in flight and
    /// must not be clobbered.
    pub fn update_if_empty(&mut self, key: usize, w: W)
        requires
            old(self).wf(),
            contains_key(old(self)@, key),
        ensures
            final(self).wf(),
            final(self).spec_next_key() == old(self).spec_next_key(),
            ({
                let i = key_index(old(self)@, key);
                if old(self)@[i].waker is None {
                    final(self)@ == old(self)@.update(i, Entry { key, waker: Some(w) })
                } else {
                    final(self)@ == old(self)@
                }
            }),
    {
        let i = self.index_of(key);
        if self.entries[i].waker.is_none() {
            let e = self.entries.remove(i);
            self.entries.insert(i, Entry { key, waker: Some(w) });
            proof {
                let s = old(self)@;
                let ii = i as int;
                assert(final(self)@ =~= s.update(ii, Entry { key, waker: Some(w) }));
            }
        } else {
            proof {
                assert(final(self)@ =~= old(self)@);
            }
        }
    }

    /// Take the wake handle out of the oldest populated slot, leaving the
    /// entry registered, or return `None` when no slot is populated. The
    /// caller invokes the handle after releasing the pool lock.
    pub fn wake_one_weak(&mut self) -> (w: Option<W>)
        requires
            old(self).wf(),
        ensures
            final(self).wf(),
            final(self).spec_next_key() == old(self).spec_next_key(),
            ({
                let i = first_waiting(old(self)@);
                if i == -1 {
                    w is None && final(self)@ == old(self)@
                } else {
                    &&& w == old(self)@[i].waker
                    &&& w is Some
                    &&& final(self)@ == old(self)@.update(
                        i,
                        Entry { key: old(self)@[i].key, waker: None },
                    )
                }
            }),
    {
        let n = self.entries.len();
        let mut i: usize = 0;
        while i < n
            invariant
                self.wf(),
                self@ == old(self)@,
                self.spec_next_key() == old(self).spec_next_key(),
                n == self@.len(),
                i <= n,
                forall|j: int| 0 <= j < i ==> (#[trigger] self@[j].waker) is None,
            decreases n - i,
        {
            if self.entries[i].waker.is_some() {
                proof {
                    lemma_first_waiting_at(self@, i as int);
                }
                let e = self.entries.remove(i);
                self.entries.insert(i, Entry { key: e.key, waker: None });
                proof {
                    let s = old(self)@;
                    let ii = i as int;
                    assert(final(self)@ =~= s.update(
                        ii,
                        Entry { key: s[ii].key, waker: None },
                    ));
                }
                return e.waker;
            }
            i = i + 1;
        }
        proof {
            lemma_first_waiting(self@);
        }
        None
    }
}

} // verus!
