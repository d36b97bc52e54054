//! The transaction pool: a keyed store of pending transactions with
//! arrival timestamps and expiry-based eviction.
//!
//! The clock is a collaborator of the node, not of this container: every
//! operation that needs the current time takes it as an argument, so the
//! eviction rule is stated and checked exactly over those values.

use vstd::prelude::*;
use crate::blockcfg::TransactionId;

verus! {

/// A clock reading, in ticks since the node's clock origin.
pub type Timestamp = u64;

/// One pool entry: the transaction, keyed by its identifier, with the
/// time it arrived.
pub struct PoolEntry<Trans> {
    pub id: TransactionId,
    pub arrival: Timestamp,
    pub trans: Trans,
}

/// Whether `s` holds an entry for `id`.
pub open spec fn pool_has<Trans>(s: Seq<PoolEntry<Trans>>, id: TransactionId) -> bool {
    exists|i: int| 0 <= i < s.len() && s[i].id == id
}

/// The entry `s` holds for `id` (meaningful when the ids in `s` are
/// distinct and one of them is `id`).
pub open spec fn pool_entry<Trans>(s: Seq<PoolEntry<Trans>>, id: TransactionId) -> PoolEntry<
    Trans,
> {
    s[choose|i: int| 0 <= i < s.len() && s[i].id == id]
}

/// An entry survives a collection run at time `now` with expiry duration
/// `expired_duration` iff its age does not exceed that duration.
pub open spec fn pool_fresh<Trans>(
    e: PoolEntry<Trans>,
    expired_duration: u64,
    now: Timestamp,
) -> bool {
    e.arrival + expired_duration >= now
}

/// The current transaction pool, containing every transaction that is a
/// candidate for inclusion in a block, with its arrival time.
pub struct TPool<Trans> {
    content: Vec<PoolEntry<Trans>>,
}

impl<Trans> TPool<Trans> {
    /// The entries of the pool, in arrival order of their ids.
    pub closed spec fn entries(&self) -> Seq<PoolEntry<Trans>> {
        self.content@
    }

    /// No identifier appears twice.
    pub open spec fn wf(&self) -> bool {
        forall|i: int, j: int|
            0 <= i < j < self.entries().len() ==> self.entries()[i].id != self.entries()[j].id
    }

    pub open spec fn has(&self, id: TransactionId) -> bool {
        pool_has(self.entries(), id)
    }

    pub open spec fn entry(&self, id: TransactionId) -> PoolEntry<Trans> {
        pool_entry(self.entries(), id)
    }

    /// Create a new, empty pool.
    pub fn new() -> (r: TPool<Trans>)
        ensures
            r.wf(),
            r.entries() == Seq::<PoolEntry<Trans>>::empty(),
    {
        TPool { content: Vec::new() }
    }

    /// How many transactions the pool currently holds.
    pub fn len(&self) -> (r: usize)
        ensures
            r == self.entries().len(),
    {
        self.content.len()
    }

    /// Where the entry for `id` sits, if anywhere.
    fn position_of(&self, id: TransactionId) -> (r: Option<usize>)
        ensures
            match r {
                Some(i) => i < self.entries().len() && self.entries()[i as int].id == id,
                None => !self.has(id),
            },
    {
        let n = self.content.len();
        let mut i: usize = 0;
        while i < n
            invariant
                i <= n,
                n == self.entries().len(),
                forall|j: int| 0 <= j < i ==> self.entries()[j].id != id,
            decreases n - i,
        {
            if self.content[i].id == id {
                return Some(i);
            }
            i = i + 1;
        }
        None
    }

    /// Check whether a transaction already sits in the pool.
    pub fn exist(&self, id: TransactionId) -> (r: bool)
        ensures
            r == self.has(id),
    {
        self.position_of(id).is_some()
    }

    /// Read a pooled transaction back.
    pub fn get(&self, id: TransactionId) -> (r: Option<&Trans>)
        requires
            self.wf(),
        ensures
            match r {
                Some(t) => self.has(id) && *t == self.entry(id).trans,
                None => !self.has(id),
            },
    {
        match self.position_of(id) {
            Some(i) => {
                proof {
                    let s = self.entries();
                    let k = choose|k: int| 0 <= k < s.len() && s[k].id == id;
                    assert(s[k].id == s[i as int].id);
                }
                Some(&self.content[i].trans)
            },
            None => None,
        }
    }

    /// Add a transaction to the pool, recording `now` as its arrival
    /// time. A prior entry for the same id is overwritten: last write
    /// wins, with no duplicate-detection error.
    pub fn add(&mut self, id: TransactionId, trans: Trans, now: Timestamp)
        requires
            old(self).wf(),
        ensures
            final(self).wf(),
            final(self).has(id),
            final(self).entry(id) == (PoolEntry { id, arrival: now, trans }),
            forall|x: TransactionId| x != id ==> (final(self).has(x) <==> old(self).has(x)),
            forall|x: TransactionId|
                x != id && old(self).has(x) ==> final(self).entry(x) == old(self).entry(x),
            final(self).entries().len() == old(self).entries().len() + (if old(self).has(id) {
                0int
            } else {
                1int
            }),
    {
        let ghost prev = self.content@;
        match self.position_of(id) {
            Some(i) => {
                self.content.remove(i);
                self.content.push(PoolEntry { id, arrival: now, trans });
                proof {
                    let s = self.content@;
                    assert forall|x: TransactionId| x != id && pool_has(prev, x) implies pool_has(
                        s,
                        x,
                    ) by {
                        let j = choose|j: int| 0 <= j < prev.len() && prev[j].id == x;
                        if j < i {
                            assert(s[j].id == x);
                        } else {
                            assert(s[j - 1].id == x);
                        }
                    }
                    assert forall|x: TransactionId| x != id && pool_has(s, x) implies pool_has(
                        prev,
                        x,
                    ) && pool_entry(s, x) == pool_entry(prev, x) by {
                        let j = choose|j: int| 0 <= j < s.len() && s[j].id == x;
                        let e = s[j];
                        assert(j < s.len() - 1);
                        let jp: int = if j < i {
                            j
                        } else {
                            j + 1
                        };
                        assert(prev[jp] == e);
                        let j2 = choose|j2: int| 0 <= j2 < prev.len() && prev[j2].id == x;
                        assert(prev[j2] == prev[jp]);
                        let k = choose|k: int| 0 <= k < s.len() && s[k].id == x;
                        if k < i {
                            assert(prev[k] == s[k]);
                            assert(prev[k].id == x && prev[jp].id == x);
                            assert(s[k] == e);
                        } else {
                            assert(prev[k + 1] == s[k]);
                            assert(s[k] == e);
                        }
                    }
                }
            },
            None => {
                self.content.push(PoolEntry { id, arrival: now, trans });
                proof {
                    let s = self.content@;
                    assert forall|x: TransactionId| x != id && pool_has(s, x) implies pool_has(
                        prev,
                        x,
                    ) && pool_entry(s, x) == pool_entry(prev, x) by {
                        let j = choose|j: int| 0 <= j < s.len() && s[j].id == x;
                        assert(j < s.len() - 1);
                        assert(prev[j].id == x);
                        let j2 = choose|j2: int| 0 <= j2 < prev.len() && prev[j2].id == x;
                        let k = choose|k: int| 0 <= k < s.len() && s[k].id == x;
                        assert(k < s.len() - 1);
                        assert(prev[k] == s[k]);
                    }
                    assert forall|x: TransactionId| x != id && pool_has(prev, x) implies pool_has(
                        s,
                        x,
                    ) by {
                        let j = choose|j: int| 0 <= j < prev.len() && prev[j].id == x;
                        assert(s[j].id == x);
                    }
                }
            },
        }
        proof {
            let s = self.content@;
            assert(s[s.len() - 1].id == id);
            let k = choose|k: int| 0 <= k < s.len() && s[k].id == id;
            assert(s[k] == s[s.len() - 1]);
        }
    }

    /// Garbage-collect the pool at time `now`: remove exactly the entries
    /// whose age exceeds `expired_duration`, and return how many were
    /// removed. Entries within the duration are untouched.
    #[verifier::rlimit(40)]
    pub fn gc(&mut self, expired_duration: u64, now: Timestamp) -> (removed: usize)
        requires
            old(self).wf(),
        ensures
            final(self).wf(),
            forall|x: TransactionId|
                final(self).has(x) <==> old(self).has(x) && pool_fresh(
                    old(self).entry(x),
                    expired_duration,
                    now,
                ),
            forall|x: TransactionId|
                final(self).has(x) ==> final(self).entry(x) == old(self).entry(x),
            removed == old(self).entries().len() - final(self).entries().len(),
    {
        let orig_length = self.content.len();
        let ghost orig = self.content@;
        proof {
            assert(orig == old(self).entries());
            assert forall|i: int, j: int| 0 <= i < j < orig.len() implies orig[i].id
                != orig[j].id by {
                assert(old(self).entries()[i].id != old(self).entries()[j].id);
            }
        }
        let mut kept: Vec<PoolEntry<Trans>> = Vec::new();
        while self.content.len() > 0
            invariant
                forall|i: int, j: int| 0 <= i < j < orig.len() ==> orig[i].id != orig[j].id,
                self.content@ == orig.subrange(
                    orig.len() - self.content@.len(),
                    orig.len() as int,
                ),
                kept@.len() <= orig.len() - self.content@.len(),
                forall|i: int, j: int| 0 <= i < j < kept@.len() ==> kept@[i].id != kept@[j].id,
                forall|i: int|
                    0 <= i < kept@.len() ==> exists|j: int|
                        0 <= j < orig.len() - self.content@.len() && orig[j] == #[trigger] kept@[i],
                forall|j: int|
                    0 <= j < orig.len() - self.content@.len() ==> (pool_fresh(
                        #[trigger] orig[j],
                        expired_duration,
                        now,
                    ) <==> exists|i: int| 0 <= i < kept@.len() && kept@[i] == orig[j]),
            decreases self.content@.len(),
        {
            let ghost done = orig.len() - self.content@.len();
            let e = self.content.remove(0);
            proof {
                assert(e == orig[done]);
                assert(self.content@ == orig.subrange(
                    orig.len() - self.content@.len(),
                    orig.len() as int,
                ));
            }
            let keep = !(expired_duration < now && e.arrival < now - expired_duration);
            proof {
                assert(keep == pool_fresh(e, expired_duration, now));
            }
            if keep {
                let ghost kept0 = kept@;
                kept.push(e);
                proof {
                    assert forall|i: int| 0 <= i < kept0.len() implies kept0[i].id != e.id by {
                        let j = choose|j: int| 0 <= j < done && orig[j] == kept0[i];
                        assert(orig[j].id != orig[done].id);
                    }
                    assert(kept@ == kept0.push(e));
                    assert forall|j: int|
                        0 <= j < orig.len() - self.content@.len() implies (pool_fresh(
                        #[trigger] orig[j],
                        expired_duration,
                        now,
                    ) <==> exists|i: int| 0 <= i < kept@.len() && kept@[i] == orig[j]) by {
                        if j < done {
                            if pool_fresh(orig[j], expired_duration, now) {
                                let i = choose|i: int| 0 <= i < kept0.len() && kept0[i] == orig[j];
                                assert(kept@[i] == orig[j]);
                            } else {
                                if exists|i: int| 0 <= i < kept@.len() && kept@[i] == orig[j] {
                                    let i = choose|i: int|
                                        0 <= i < kept@.len() && kept@[i] == orig[j];
                                    assert(i < kept@.len() - 1 || kept@[i] == e);
                                    assert(orig[j].id != orig[done].id);
                                }
                            }
                        } else {
                            assert(j == done);
                            assert(kept@[kept@.len() - 1] == orig[j]);
                        }
                    }
                }
            } else {
                proof {
                    assert forall|j: int|
                        0 <= j < orig.len() - self.content@.len() implies (pool_fresh(
                        #[trigger] orig[j],
                        expired_duration,
                        now,
                    ) <==> exists|i: int| 0 <= i < kept@.len() && kept@[i] == orig[j]) by {
                        if j == done {
                            if exists|i: int| 0 <= i < kept@.len() && kept@[i] == orig[j] {
                                let i = choose|i: int|
                                    0 <= i < kept@.len() && kept@[i] == orig[j];
                                assert(exists|j2: int| 0 <= j2 < done && orig[j2] == kept@[i]);
                                let j2 = choose|j2: int| 0 <= j2 < done && orig[j2] == kept@[i];
                                assert(orig[j2].id != orig[done].id);
                            }
                        }
                    }
                }
            }
        }
        self.content = kept;
        proof {
            let s = self.content@;
            assert forall|x: TransactionId|
                pool_has(s, x) implies pool_has(orig, x) && pool_fresh(
                pool_entry(orig, x),
                expired_duration,
                now,
            ) && pool_entry(s, x) == pool_entry(orig, x) by {
                let i = choose|i: int| 0 <= i < s.len() && s[i].id == x;
                let j = choose|j: int| 0 <= j < orig.len() && orig[j] == s[i];
                assert(orig[j].id == x);
                let j2 = choose|j2: int| 0 <= j2 < orig.len() && orig[j2].id == x;
                assert(orig[j2] == orig[j]);
                let i2 = choose|i2: int| 0 <= i2 < s.len() && s[i2].id == x;
                assert(s[i2] == s[i]);
            }
            assert forall|x: TransactionId|
                pool_has(orig, x) && pool_fresh(
                    pool_entry(orig, x),
                    expired_duration,
                    now,
                ) implies pool_has(s, x) by {
                let j = choose|j: int| 0 <= j < orig.len() && orig[j].id == x;
                assert(pool_entry(orig, x) == orig[j]);
                assert(pool_fresh(orig[j], expired_duration, now));
                let i = choose|i: int| 0 <= i < s.len() && s[i] == orig[j];
                assert(s[i].id == x);
            }
            assert(s.len() <= orig.len());
        }
        orig_length - self.content.len()
    }
}

} // verus!
