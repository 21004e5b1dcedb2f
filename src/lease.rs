use crate::run_state::str_eq;
use vstd::prelude::*;

verus! {

/// A claim on a run by one worker, valid while the clock is before `expires_at`.
#[derive(Debug, Clone)]
pub struct Lease {
    pub run_id: String,
    pub worker_id: String,
    pub expires_at: u64,
}

/// Leases of runs to workers. At most one lease per run is stored.
#[derive(Debug, Clone)]
pub struct LeaseTable {
    pub leases: Vec<Lease>,
}

/// `now + ttl`, capped at the largest `u64`.
pub open spec fn expiry(now: u64, ttl: u64) -> u64 {
    if now + ttl > u64::MAX {
        u64::MAX
    } else {
        (now + ttl) as u64
    }
}

impl LeaseTable {
    /// At most one stored lease per run.
    pub open spec fn wf(&self) -> bool {
        forall|i: int, j: int|
            0 <= i < self.leases@.len() && 0 <= j < self.leases@.len() && i != j
                ==> self.leases@[i].run_id@ != self.leases@[j].run_id@
    }

    /// The stored lease of `run`, as (worker, expiry), if any.
    pub open spec fn lease_of(&self, run: Seq<char>) -> Option<(Seq<char>, u64)> {
        if exists|i: int| 0 <= i < self.leases@.len() && self.leases@[i].run_id@ == run {
            let i = choose|i: int| 0 <= i < self.leases@.len() && self.leases@[i].run_id@ == run;
            Some((self.leases@[i].worker_id@, self.leases@[i].expires_at))
        } else {
            None
        }
    }

    /// The worker holding a live lease on `run` at time `now`, if any.
    pub open spec fn holder(&self, run: Seq<char>, now: u64) -> Option<Seq<char>> {
        match self.lease_of(run) {
            Some((w, exp)) => if now < exp {
                Some(w)
            } else {
                None
            },
            None => None,
        }
    }

    /// What `try_acquire_lease` does: it succeeds exactly when no live lease is
    /// held on the run, and then the run is leased to `worker` until `now + ttl`.
    pub open spec fn acquire_post(
        old: LeaseTable,
        new: LeaseTable,
        run: Seq<char>,
        worker: Seq<char>,
        ttl: u64,
        now: u64,
        r: bool,
    ) -> bool {
        &&& r == (old.holder(run, now) is None)
        &&& r ==> new.lease_of(run) == Some((worker, expiry(now, ttl)))
        &&& !r ==> new.lease_of(run) == old.lease_of(run)
        &&& forall|x: Seq<char>| x != run ==> #[trigger] new.lease_of(x) == old.lease_of(x)
    }

    /// What `release_lease` does: the lease of `worker` on `run` is dropped;
    /// anyone else's lease is kept.
    pub open spec fn release_post(
        old: LeaseTable,
        new: LeaseTable,
        run: Seq<char>,
        worker: Seq<char>,
    ) -> bool {
        &&& (old.lease_of(run) matches Some((w, _)) && w == worker) ==> new.lease_of(run) is None
        &&& !(old.lease_of(run) matches Some((w, _)) && w == worker) ==> new.lease_of(run)
            == old.lease_of(run)
        &&& forall|x: Seq<char>| x != run ==> #[trigger] new.lease_of(x) == old.lease_of(x)
    }

    proof fn lemma_lease_at(&self, i: int)
        requires
            self.wf(),
            0 <= i < self.leases@.len(),
        ensures
            self.lease_of(self.leases@[i].run_id@) == Some(
                (self.leases@[i].worker_id@, self.leases@[i].expires_at),
            ),
    {
        let run = self.leases@[i].run_id@;
        let j = choose|j: int| 0 <= j < self.leases@.len() && self.leases@[j].run_id@ == run;
        assert(i == j);
    }

    proof fn lemma_update_keeps_others(old_t: LeaseTable, new_t: LeaseTable, i: int)
        requires
            old_t.wf(),
            0 <= i < old_t.leases@.len(),
            new_t.leases@.len() == old_t.leases@.len(),
            new_t.leases@[i].run_id@ == old_t.leases@[i].run_id@,
            forall|k: int| 0 <= k < old_t.leases@.len() && k != i ==> new_t.leases@[k] == old_t.leases@[k],
        ensures
            new_t.wf(),
            new_t.lease_of(old_t.leases@[i].run_id@) == Some(
                (new_t.leases@[i].worker_id@, new_t.leases@[i].expires_at),
            ),
            forall|x: Seq<char>|
                x != old_t.leases@[i].run_id@ ==> #[trigger] new_t.lease_of(x) == old_t.lease_of(x),
    {
        assert(new_t.wf());
        new_t.lemma_lease_at(i);
        assert forall|x: Seq<char>| x != old_t.leases@[i].run_id@ implies #[trigger] new_t.lease_of(x)
            == old_t.lease_of(x) by {
            if exists|k: int| 0 <= k < old_t.leases@.len() && old_t.leases@[k].run_id@ == x {
                let k = choose|k: int| 0 <= k < old_t.leases@.len() && old_t.leases@[k].run_id@ == x;
                old_t.lemma_lease_at(k);
                new_t.lemma_lease_at(k);
            } else {
                assert(!exists|k: int| 0 <= k < new_t.leases@.len() && new_t.leases@[k].run_id@ == x)
                    by {
                    if exists|k: int| 0 <= k < new_t.leases@.len() && new_t.leases@[k].run_id@ == x {
                        let k = choose|k: int|
                            0 <= k < new_t.leases@.len() && new_t.leases@[k].run_id@ == x;
                        assert(old_t.leases@[k].run_id@ == x);
                    }
                }
            }
        }
    }

    proof fn lemma_remove_keeps_others(old_t: LeaseTable, new_t: LeaseTable, i: int)
        requires
            old_t.wf(),
            0 <= i < old_t.leases@.len(),
            new_t.leases@ == old_t.leases@.remove(i),
        ensures
            new_t.wf(),
            new_t.lease_of(old_t.leases@[i].run_id@) is None,
            forall|x: Seq<char>|
                x != old_t.leases@[i].run_id@ ==> #[trigger] new_t.lease_of(x) == old_t.lease_of(x),
    {
        let run = old_t.leases@[i].run_id@;
        assert forall|a: int, b: int|
            0 <= a < new_t.leases@.len() && 0 <= b < new_t.leases@.len() && a != b implies new_t.leases@[a].run_id@
                != new_t.leases@[b].run_id@ by {
            let a2 = if a < i { a } else { a + 1 };
            let b2 = if b < i { b } else { b + 1 };
            assert(new_t.leases@[a] == old_t.leases@[a2]);
            assert(new_t.leases@[b] == old_t.leases@[b2]);
        }
        assert(!exists|k: int| 0 <= k < new_t.leases@.len() && new_t.leases@[k].run_id@ == run) by {
            if exists|k: int| 0 <= k < new_t.leases@.len() && new_t.leases@[k].run_id@ == run {
                let k = choose|k: int| 0 <= k < new_t.leases@.len() && new_t.leases@[k].run_id@ == run;
                let k2 = if k < i { k } else { k + 1 };
                assert(new_t.leases@[k] == old_t.leases@[k2]);
            }
        }
        assert forall|x: Seq<char>| x != run implies #[trigger] new_t.lease_of(x) == old_t.lease_of(x) by {
            if exists|k: int| 0 <= k < old_t.leases@.len() && old_t.leases@[k].run_id@ == x {
                let k = choose|k: int| 0 <= k < old_t.leases@.len() && old_t.leases@[k].run_id@ == x;
                old_t.lemma_lease_at(k);
                assert(k != i);
                let k2 = if k < i { k } else { k - 1 };
                assert(new_t.leases@[k2] == old_t.leases@[k]);
                new_t.lemma_lease_at(k2);
            } else {
                assert(!exists|k: int| 0 <= k < new_t.leases@.len() && new_t.leases@[k].run_id@ == x)
                    by {
                    if exists|k: int| 0 <= k < new_t.leases@.len() && new_t.leases@[k].run_id@ == x {
                        let k = choose|k: int|
                            0 <= k < new_t.leases@.len() && new_t.leases@[k].run_id@ == x;
                        let k2 = if k < i { k } else { k + 1 };
                        assert(new_t.leases@[k] == old_t.leases@[k2]);
                    }
                }
            }
        }
    }

    /// What `renew_lease` does: it succeeds exactly when `worker` holds a live
    /// lease on the run, and then the lease runs until `now + ttl`.
    pub open spec fn renew_post(
        old: LeaseTable,
        new: LeaseTable,
        run: Seq<char>,
        worker: Seq<char>,
        ttl: u64,
        now: u64,
        r: bool,
    ) -> bool {
        &&& r == (old.holder(run, now) == Some(worker))
        &&& r ==> new.lease_of(run) == Some((worker, expiry(now, ttl)))
        &&& !r ==> new.lease_of(run) == old.lease_of(run)
        &&& forall|x: Seq<char>| x != run ==> #[trigger] new.lease_of(x) == old.lease_of(x)
    }

    /// An empty table.
    pub fn new() -> (t: LeaseTable)
        ensures
            t.wf(),
            forall|x: Seq<char>| #[trigger] t.lease_of(x) is None,
    {
        LeaseTable { leases: Vec::new() }
    }

    fn find(&self, run: &str) -> (r: Option<usize>)
        requires
            self.wf(),
        ensures
            r matches Some(i) ==> i < self.leases@.len() && self.leases@[i as int].run_id@ == run@
                && self.lease_of(run@) == Some(
                (self.leases@[i as int].worker_id@, self.leases@[i as int].expires_at),
            ),
            r is None ==> self.lease_of(run@) is None && forall|k: int|
                0 <= k < self.leases@.len() ==> self.leases@[k].run_id@ != run@,
    {
        let mut i: usize = 0;
        while i < self.leases.len()
            invariant
                self.wf(),
                i <= self.leases@.len(),
                forall|k: int| 0 <= k < i ==> self.leases@[k].run_id@ != run@,
            decreases self.leases@.len() - i,
        {
            if str_eq(self.leases[i].run_id.as_str(), run) {
                proof {
                    self.lemma_lease_at(i as int);
                }
                return Some(i);
            }
            i = i + 1;
        }
        None
    }

    /// Set-if-absent with a time to live: leases `run` to `worker` until
    /// `now + ttl` unless a live lease (of any worker) is held on it.
    pub fn try_acquire_lease(&mut self, run: &str, worker: &str, ttl: u64, now: u64) -> (r: bool)
        requires
            old(self).wf(),
        ensures
            final(self).wf(),
            LeaseTable::acquire_post(*old(self), *final(self), run@, worker@, ttl, now, r),
    {
        let exp = if now > u64::MAX - ttl {
            u64::MAX
        } else {
            now + ttl
        };
        let lease = Lease {
            run_id: String::from_str(run),
            worker_id: String::from_str(worker),
            expires_at: exp,
        };
        match self.find(run) {
            Some(i) => {
                if now < self.leases[i].expires_at {
                    return false;
                }
                let ghost old_t = *self;
                self.leases.set(i, lease);
                proof {
                    LeaseTable::lemma_update_keeps_others(old_t, *self, i as int);
                }
                true
            },
            None => {
                let ghost old_t = *self;
                self.leases.push(lease);
                proof {
                    let n = old_t.leases@.len() as int;
                    self.lemma_lease_at(n);
                    assert forall|x: Seq<char>| x != run@ implies #[trigger] self.lease_of(x)
                        == old_t.lease_of(x) by {
                        if exists|k: int| 0 <= k < old_t.leases@.len() && old_t.leases@[k].run_id@ == x {
                            let k = choose|k: int|
                                0 <= k < old_t.leases@.len() && old_t.leases@[k].run_id@ == x;
                            old_t.lemma_lease_at(k);
                            self.lemma_lease_at(k);
                        } else {
                            assert(!exists|k: int|
                                0 <= k < self.leases@.len() && self.leases@[k].run_id@ == x) by {
                                if exists|k: int|
                                    0 <= k < self.leases@.len() && self.leases@[k].run_id@ == x {
                                    let k = choose|k: int|
                                        0 <= k < self.leases@.len() && self.leases@[k].run_id@ == x;
                                    assert(k != n);
                                    assert(old_t.leases@[k].run_id@ == x);
                                }
                            }
                        }
                    }
                }
                true
            },
        }
    }
}

impl LeaseTable {
    /// Extends a live lease held by `worker` to `now + ttl`.
    pub fn renew_lease(&mut self, run: &str, worker: &str, ttl: u64, now: u64) -> (r: bool)
        requires
            old(self).wf(),
        ensures
            final(self).wf(),
            LeaseTable::renew_post(*old(self), *final(self), run@, worker@, ttl, now, r),
    {
        match self.find(run) {
            Some(i) => {
                if !(now < self.leases[i].expires_at) || !str_eq(
                    self.leases[i].worker_id.as_str(),
                    worker,
                ) {
                    return false;
                }
                let exp = if now > u64::MAX - ttl {
                    u64::MAX
                } else {
                    now + ttl
                };
                let lease = Lease {
                    run_id: String::from_str(run),
                    worker_id: String::from_str(worker),
                    expires_at: exp,
                };
                let ghost old_t = *self;
                self.leases.set(i, lease);
                proof {
                    LeaseTable::lemma_update_keeps_others(old_t, *self, i as int);
                }
                true
            },
            None => false,
        }
    }

    /// Drops the lease on `run` if `worker` holds it.
    pub fn release_lease(&mut self, run: &str, worker: &str)
        requires
            old(self).wf(),
        ensures
            final(self).wf(),
            LeaseTable::release_post(*old(self), *final(self), run@, worker@),
    {
        match self.find(run) {
            Some(i) => {
                if str_eq(self.leases[i].worker_id.as_str(), worker) {
                    let ghost old_t = *self;
                    self.leases.remove(i);
                    proof {
                        LeaseTable::lemma_remove_keeps_others(old_t, *self, i as int);
                    }
                }
            },
            None => {},
        }
    }
}

/// Shortest lease a worker takes, in seconds.
pub const MIN_LEASE_TTL_SECONDS: u64 = 5;

/// How often a held lease is renewed: a third of its time to live (taken as at
/// least 5 s), and at least every second.
pub fn lease_renew_interval(ttl: u64) -> (r: u64)
    ensures
        r == if (if ttl < MIN_LEASE_TTL_SECONDS {
            MIN_LEASE_TTL_SECONDS
        } else {
            ttl
        }) / 3 == 0 {
            1
        } else {
            (if ttl < MIN_LEASE_TTL_SECONDS {
                MIN_LEASE_TTL_SECONDS
            } else {
                ttl
            }) / 3
        },
        r >= 1,
        r < ttl || ttl < 2,
{
    let t = if ttl < MIN_LEASE_TTL_SECONDS {
        MIN_LEASE_TTL_SECONDS
    } else {
        ttl
    };
    let r = t / 3;
    if r == 0 {
        1
    } else {
        r
    }
}

/// Two workers racing for one free run: the first acquire wins, and the second
/// fails while the first lease is live.
pub proof fn lemma_lease_exclusive(
    t0: LeaseTable,
    t1: LeaseTable,
    t2: LeaseTable,
    run: Seq<char>,
    w1: Seq<char>,
    w2: Seq<char>,
    ttl: u64,
    now1: u64,
    now2: u64,
    r1: bool,
    r2: bool,
)
    requires
        t0.holder(run, now1) is None,
        LeaseTable::acquire_post(t0, t1, run, w1, ttl, now1, r1),
        LeaseTable::acquire_post(t1, t2, run, w2, ttl, now2, r2),
        now2 < expiry(now1, ttl),
    ensures
        r1,
        !r2,
        t2.holder(run, now2) == Some(w1),
{
}

/// After the holder releases, another worker's acquire succeeds.
pub proof fn lemma_lease_after_release(
    t1: LeaseTable,
    t2: LeaseTable,
    t3: LeaseTable,
    run: Seq<char>,
    w1: Seq<char>,
    w2: Seq<char>,
    ttl: u64,
    now: u64,
    r: bool,
)
    requires
        t1.holder(run, now) == Some(w1),
        LeaseTable::release_post(t1, t2, run, w1),
        LeaseTable::acquire_post(t2, t3, run, w2, ttl, now, r),
    ensures
        r,
        t3.holder(run, now) == (if now < expiry(now, ttl) {
            Some(w2)
        } else {
            None
        }),
{
}

/// Once the lease has expired, another worker's acquire succeeds.
pub proof fn lemma_lease_after_expiry(
    t1: LeaseTable,
    t2: LeaseTable,
    run: Seq<char>,
    w1: Seq<char>,
    w2: Seq<char>,
    ttl: u64,
    now1: u64,
    now2: u64,
    r: bool,
)
    requires
        t1.lease_of(run) == Some((w1, expiry(now1, ttl))),
        now2 >= expiry(now1, ttl),
        LeaseTable::acquire_post(t1, t2, run, w2, ttl, now2, r),
    ensures
        r,
{
}

} // verus!
