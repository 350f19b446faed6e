use crate::time::{Timestamp, HEARTBEAT_TIMEOUT};
use crate::worker::{WorkerId, WorkerStatus};
use std::collections::{BTreeMap, BTreeSet};
use vstd::prelude::*;
use vstd::std_specs::btree::{
    axiom_increasing_seq_meaning, increasing_seq, spec_btree_keys_iter, spec_btree_map_iter,
};
use vstd::std_specs::cmp::OrdSpec;
use vstd::std_specs::iter::IteratorSpec;

verus! {

/// Relies on rand's `Rng::gen_range` over `thread_rng()`: a value in
/// `0..n`, which is not empty here (the call panics on an empty range).
#[verifier::external_body]
fn random_below(n: usize) -> (r: usize)
    requires
        n > 0,
    ensures
        r < n,
{
    rand::Rng::gen_range(&mut rand::thread_rng(), 0..n)
}

/// What the supervisor knows of a worker: when it was last heard from.
#[derive(Clone, Copy, Debug, PartialEq, Eq, Structural)]
pub struct SupervisedWorker {
    pub last_heard_at: Timestamp,
}

/// Whether a worker last heard from at `last` has not been heard from for
/// the heartbeat timeout at `now`, i.e. `last <= now - HEARTBEAT_TIMEOUT`.
pub open spec fn is_expired(last: Timestamp, now: Timestamp) -> bool {
    last.micros + HEARTBEAT_TIMEOUT <= now.micros
}

/// The ids of the workers that a garbage collection at `now` removes.
pub open spec fn expired_ids(m: Map<u128, SupervisedWorker>, now: Timestamp) -> Set<u128> {
    Set::new(|k: u128| m.contains_key(k) && is_expired(m[k].last_heard_at, now))
}

/// Of a set of ids, those below `id`.
pub open spec fn ids_below(s: Set<u128>, id: u128) -> Set<u128> {
    s.filter(|x: u128| x < id)
}

/// The supervisor's roster: every known worker with the instant it was last
/// heard from, and the set of those that may be given a task.
#[derive(Debug)]
pub struct SupervisedWorkers {
    workers: BTreeMap<u128, SupervisedWorker>,
    idling_workers: BTreeSet<u128>,
}

impl SupervisedWorkers {
    /// The known workers, by id.
    pub closed spec fn heard(&self) -> Map<u128, SupervisedWorker> {
        self.workers@
    }

    /// The ids of the idle workers.
    pub closed spec fn idle(&self) -> Set<u128> {
        self.idling_workers@
    }

    /// Only known workers are idle.
    pub open spec fn wf(&self) -> bool {
        self.idle().subset_of(self.heard().dom())
    }

    pub fn new() -> (r: SupervisedWorkers)
        ensures
            r.heard() == Map::<u128, SupervisedWorker>::empty(),
            r.idle() == Set::<u128>::empty(),
            r.wf(),
    {
        SupervisedWorkers { workers: BTreeMap::new(), idling_workers: BTreeSet::new() }
    }

    /// Records a heartbeat of worker `id`. On the first one the worker joins
    /// the roster, idle when it says so. Later ones only refresh
    /// `last_heard_at`: the status they carry is ignored, since it may
    /// predate a dispatch.
    pub fn add(&mut self, id: WorkerId, status: WorkerStatus, now: Timestamp)
        requires
            old(self).wf(),
        ensures
            final(self).wf(),
            final(self).heard() == old(self).heard().insert(
                id.0,
                SupervisedWorker { last_heard_at: now },
            ),
            final(self).idle() == (if !old(self).heard().contains_key(id.0) && status
                == WorkerStatus::Idle {
                old(self).idle().insert(id.0)
            } else {
                old(self).idle()
            }),
    {
        let known = self.workers.insert(id.0, SupervisedWorker { last_heard_at: now });
        if known.is_none() {
            if let WorkerStatus::Idle = status {
                self.idling_workers.insert(id.0);
            }
        }
    }

    /// Puts worker `id` into the idle set; nothing happens when it is
    /// unknown or already idle.
    pub fn mark_as_idle(&mut self, id: WorkerId)
        requires
            old(self).wf(),
        ensures
            final(self).wf(),
            final(self).heard() == old(self).heard(),
            final(self).idle() == (if old(self).heard().contains_key(id.0) {
                old(self).idle().insert(id.0)
            } else {
                old(self).idle()
            }),
    {
        if self.workers.contains_key(&id.0) {
            self.idling_workers.insert(id.0);
        }
    }

    /// The idle ids, in increasing order.
    fn idle_ids(&self) -> (r: Vec<u128>)
        ensures
            r@.to_set() == self.idle(),
            r@.no_duplicates(),
            forall|i: int, j: int| 0 <= i < j < r@.len() ==> r@[i] < r@[j],
    {
        let ghost all = spec_btree_keys_iter(&self.idling_workers).remaining();
        let mut out: Vec<u128> = Vec::new();
        for x in it: self.idling_workers.iter()
            invariant
                it.seq() == all,
                out@ == all.subrange(0, it.index() as int).map_values(|p: &u128| *p),
        {
            out.push(*x);
            assert(out@ =~= all.subrange(0, it.index() + 1).map_values(|p: &u128| *p));
        }
        proof {
            broadcast use vstd::laws_cmp::lemma_ref_obeys_cmp_spec;

            assert(out@ =~= all.map_values(|p: &u128| *p));
            assert(all.unref() =~= all.map_values(|p: &u128| *p));
            assert(vstd::laws_cmp::obeys_cmp::<u128>());
            assert(vstd::laws_cmp::obeys_cmp::<&u128>());
            axiom_increasing_seq_meaning(all);
            assert forall|i: int, j: int| 0 <= i < j < out@.len() implies out@[i] < out@[j] by {
                assert(<&u128 as OrdSpec>::cmp_spec(&all[i], &all[j]) is Less);
            }
        }
        out
    }

    /// Takes out of the idle set the idle worker with exactly `k` idle ids
    /// below its own.
    pub fn choose_idling_at(&mut self, k: usize) -> (r: WorkerId)
        requires
            old(self).wf(),
            k < old(self).idle().len(),
        ensures
            final(self).wf(),
            old(self).idle().contains(r.0),
            ids_below(old(self).idle(), r.0).len() == k,
            final(self).heard() == old(self).heard(),
            final(self).idle() == old(self).idle().remove(r.0),
    {
        let ids = self.idle_ids();
        proof {
            ids@.unique_seq_to_set();
        }
        let id = ids[k];
        proof {
            let below = ids_below(self.idle(), id);
            assert(below =~= ids@.subrange(0, k as int).to_set()) by {
                assert forall|x: u128| below.contains(x) implies ids@.subrange(0, k as int).contains(x) by {
                    assert(ids@.to_set().contains(x));
                    let m = choose|m: int| 0 <= m < ids@.len() && ids@[m] == x;
                    if m >= k {
                        if m > k {
                            assert(ids@[k as int] < ids@[m]);
                        }
                    }
                    assert(ids@.subrange(0, k as int)[m] == x);
                }
                assert forall|x: u128| ids@.subrange(0, k as int).contains(x) implies below.contains(x) by {
                    let m = choose|m: int| 0 <= m < k && ids@.subrange(0, k as int)[m] == x;
                    assert(ids@[m] == x);
                    assert(ids@.to_set().contains(x));
                }
            }
            assert(ids@.subrange(0, k as int).no_duplicates());
            ids@.subrange(0, k as int).unique_seq_to_set();
            assert(ids@.to_set().contains(id));
        }
        self.idling_workers.remove(&id);
        WorkerId(id)
    }

    /// Takes a uniformly random worker out of the idle set; `None` when the
    /// set is empty.
    pub fn choose_idling(&mut self) -> (r: Option<WorkerId>)
        requires
            old(self).wf(),
        ensures
            final(self).wf(),
            final(self).heard() == old(self).heard(),
            r is None <==> old(self).idle().len() == 0,
            r is None ==> final(self).idle() == old(self).idle(),
            r matches Some(id) ==> old(self).idle().contains(id.0) && final(self).idle() == old(
                self,
            ).idle().remove(id.0),
    {
        let n = self.idling_workers.len();
        if n == 0 {
            return None;
        }
        let k = random_below(n);
        Some(self.choose_idling_at(k))
    }

    /// The known workers with their instants, in increasing id order.
    fn entries(&self) -> (r: Vec<(u128, SupervisedWorker)>)
        ensures
            forall|i: int|
                0 <= i < r@.len() ==> self.heard().contains_key((#[trigger] r@[i]).0)
                    && self.heard()[r@[i].0] == r@[i].1,
            forall|k: u128|
                #[trigger] self.heard().contains_key(k) ==> r@.contains((k, self.heard()[k])),
            forall|i: int, j: int| 0 <= i < j < r@.len() ==> (#[trigger] r@[i]).0 < (#[trigger] r@[j]).0,
    {
        let ghost all = spec_btree_map_iter(&self.workers).remaining();
        let ghost f = |p: (&u128, &SupervisedWorker)| (*p.0, *p.1);
        let mut out: Vec<(u128, SupervisedWorker)> = Vec::new();
        for kv in it: self.workers.iter()
            invariant
                it.seq() == all,
                f == (|p: (&u128, &SupervisedWorker)| (*p.0, *p.1)),
                out@ == all.subrange(0, it.index() as int).map_values(f),
        {
            let (k, v) = kv;
            out.push((*k, *v));
            assert(out@ =~= all.subrange(0, it.index() + 1).map_values(f));
        }
        proof {
            broadcast use vstd::laws_cmp::lemma_ref_obeys_cmp_spec;

            let m = self.workers@;
            assert(out@ =~= all.map_values(f));
            assert forall|i: int| 0 <= i < out@.len() implies m.contains_key((#[trigger] out@[i]).0)
                && m[out@[i].0] == out@[i].1 by {
                assert(m.contains_key(*all[i].0));
            }
            assert forall|k: u128| #[trigger] m.contains_key(k) implies out@.contains((k, m[k])) by {
                assert(all.contains((&k, &m[k])));
                let i = choose|i: int| 0 <= i < all.len() && all[i] == (&k, &m[k]);
                assert(out@[i] == (k, m[k]));
            }
            let keys = all.map_values(|kv: (&u128, &SupervisedWorker)| *kv.0);
            assert(vstd::laws_cmp::obeys_cmp::<u128>());
            assert(increasing_seq(keys));
            axiom_increasing_seq_meaning(keys);
            assert forall|i: int, j: int| 0 <= i < j < out@.len() implies (#[trigger] out@[i]).0 < (
            #[trigger] out@[j]).0 by {
                assert(keys[i].cmp_spec(&keys[j]) is Less);
            }
        }
        out
    }

    /// Drops the workers not heard from for the heartbeat timeout (those with
    /// `last_heard_at <= now - HEARTBEAT_TIMEOUT`), idle or not, and returns
    /// their ids in increasing order.
    #[verifier::loop_isolation(false)]
    pub fn gc(&mut self, now: Timestamp) -> (r: Vec<WorkerId>)
        requires
            old(self).wf(),
        ensures
            final(self).wf(),
            final(self).heard() == old(self).heard().remove_keys(expired_ids(old(self).heard(), now)),
            final(self).idle() == old(self).idle().difference(expired_ids(old(self).heard(), now)),
            forall|x: WorkerId| #[trigger] r@.contains(x) <==> expired_ids(old(self).heard(), now).contains(x.0),
            forall|i: int, j: int| 0 <= i < j < r@.len() ==> (#[trigger] r@[i]).0 < (#[trigger] r@[j]).0,
    {
        let ghost m0 = self.workers@;
        let ghost s0 = self.idling_workers@;
        let ghost dead_set = expired_ids(m0, now);
        let entries = self.entries();
        let mut dead: Vec<WorkerId> = Vec::new();
        let mut i: usize = 0;
        while i < entries.len()
            invariant
                i <= entries@.len(),
                self.workers@ == m0,
                self.idling_workers@ == s0,
                forall|x: WorkerId|
                    #[trigger] dead@.contains(x) ==> dead_set.contains(x.0) && exists|j: int|
                        0 <= j < i && entries@[j].0 == x.0,
                forall|j: int|
                    0 <= j < i && dead_set.contains(#[trigger] entries@[j].0) ==> dead@.contains(
                        WorkerId(entries@[j].0),
                    ),
                forall|a: int, b: int| 0 <= a < b < dead@.len() ==> (#[trigger] dead@[a]).0 < (#[trigger] dead@[b]).0,
                forall|a: int| 0 <= a < dead@.len() ==> exists|j: int| 0 <= j < i && (#[trigger] dead@[a]).0 == entries@[j].0,
            decreases entries@.len() - i,
        {
            let (id, w) = entries[i];
            if w.last_heard_at.is_older_than(HEARTBEAT_TIMEOUT, now) {
                proof {
                    assert forall|a: int| 0 <= a < dead@.len() implies (#[trigger] dead@[a]).0 < id by {
                        let j = choose|j: int| 0 <= j < i && dead@[a].0 == entries@[j].0;
                        assert(entries@[j].0 < entries@[i as int].0);
                    }
                }
                let ghost prev = dead@;
                dead.push(WorkerId(id));
                proof {
                    assert(dead@ == prev.push(WorkerId(id)));
                    assert(m0.contains_key(id) && m0[id] == w);
                    assert(dead_set.contains(id));
                    assert forall|x: WorkerId| #[trigger] dead@.contains(x) implies dead_set.contains(x.0) && exists|j: int|
                        0 <= j < i + 1 && entries@[j].0 == x.0 by {
                        let a = choose|a: int| 0 <= a < dead@.len() && dead@[a] == x;
                        if a < prev.len() {
                            assert(prev[a] == x);
                            assert(prev.contains(x));
                            let j = choose|j: int| 0 <= j < i && entries@[j].0 == x.0;
                            assert(0 <= j < i + 1 && entries@[j].0 == x.0);
                        } else {
                            assert(entries@[i as int].0 == x.0);
                        }
                    }
                    assert forall|j: int| 0 <= j < i + 1 && dead_set.contains(#[trigger] entries@[j].0) implies dead@.contains(
                        WorkerId(entries@[j].0),
                    ) by {
                        if j < i {
                            assert(prev.contains(WorkerId(entries@[j].0)));
                            let a = choose|a: int| 0 <= a < prev.len() && prev[a] == WorkerId(entries@[j].0);
                            assert(dead@[a] == WorkerId(entries@[j].0));
                        } else {
                            assert(dead@[dead@.len() - 1] == WorkerId(entries@[j].0));
                        }
                    }
                    assert forall|a: int| 0 <= a < dead@.len() implies exists|j: int| 0 <= j < i + 1 && (#[trigger] dead@[a]).0 == entries@[j].0 by {
                        if a == dead@.len() - 1 {
                            assert(dead@[a].0 == entries@[i as int].0);
                        } else {
                            assert(dead@[a] == prev[a]);
                            let j = choose|j: int| 0 <= j < i && (#[trigger] prev[a]).0 == entries@[j].0;
                            assert(0 <= j < i + 1 && dead@[a].0 == entries@[j].0);
                        }
                    }
                }
            } else {
                proof {
                    assert(!dead_set.contains(entries@[i as int].0));
                }
            }
            i = i + 1;
        }
        proof {
            assert forall|x: WorkerId| #[trigger] dead@.contains(x) <==> dead_set.contains(x.0) by {
                if dead_set.contains(x.0) {
                    assert(m0.contains_key(x.0));
                    assert(entries@.contains((x.0, m0[x.0])));
                    let j = choose|j: int| 0 <= j < entries@.len() && entries@[j] == (x.0, m0[x.0]);
                    assert(dead@.contains(WorkerId(entries@[j].0)));
                }
            }
        }
        let mut n: usize = 0;
        while n < dead.len()
            invariant
                n <= dead@.len(),
                forall|k: u128|
                    #[trigger] self.workers@.contains_key(k) <==> (m0.contains_key(k) && !exists|a: int|
                        0 <= a < n && (#[trigger] dead@[a]).0 == k),
                forall|k: u128| #[trigger] self.workers@.contains_key(k) ==> self.workers@[k] == m0[k],
                forall|k: u128|
                    #[trigger] self.idling_workers@.contains(k) <==> (s0.contains(k) && !exists|a: int|
                        0 <= a < n && (#[trigger] dead@[a]).0 == k),
            decreases dead@.len() - n,
        {
            let id = dead[n].0;
            self.workers.remove(&id);
            self.idling_workers.remove(&id);
            proof {
                assert forall|k: u128| #[trigger] self.workers@.contains_key(k) <==> (m0.contains_key(k) && !exists|a: int|
                    0 <= a < n + 1 && (#[trigger] dead@[a]).0 == k) by {
                    if k == id {
                        assert(dead@[n as int].0 == k);
                    }
                }
                assert forall|k: u128| #[trigger] self.idling_workers@.contains(k) <==> (s0.contains(k) && !exists|a: int|
                    0 <= a < n + 1 && (#[trigger] dead@[a]).0 == k) by {
                    if k == id {
                        assert(dead@[n as int].0 == k);
                    }
                }
            }
            n = n + 1;
        }
        proof {
            assert forall|k: u128| (exists|a: int| 0 <= a < dead@.len() && (#[trigger] dead@[a]).0 == k) <==> dead_set.contains(k) by {
                if dead_set.contains(k) {
                    assert(dead@.contains(WorkerId(k)));
                    let a = choose|a: int| 0 <= a < dead@.len() && dead@[a] == WorkerId(k);
                    assert(dead@[a].0 == k);
                }
                if exists|a: int| 0 <= a < dead@.len() && (#[trigger] dead@[a]).0 == k {
                    let a = choose|a: int| 0 <= a < dead@.len() && (#[trigger] dead@[a]).0 == k;
                    assert(dead@.contains(dead@[a]));
                }
            }
            assert(self.workers@ =~= m0.remove_keys(dead_set));
            assert(self.idling_workers@ =~= s0.difference(dead_set));
        }
        dead
    }

    /// The ids of the known workers, in increasing order.
    pub fn worker_ids(&self) -> (r: Vec<WorkerId>)
        ensures
            forall|x: WorkerId| #[trigger] r@.contains(x) <==> self.heard().contains_key(x.0),
            forall|i: int, j: int| 0 <= i < j < r@.len() ==> (#[trigger] r@[i]).0 < (#[trigger] r@[j]).0,
    {
        let entries = self.entries();
        let mut out: Vec<WorkerId> = Vec::new();
        let mut i: usize = 0;
        while i < entries.len()
            invariant
                i <= entries@.len(),
                out@.len() == i,
                forall|j: int| 0 <= j < i ==> (#[trigger] out@[j]).0 == entries@[j].0,
                forall|j: int, l: int| 0 <= j < l < entries@.len() ==> (#[trigger] entries@[j]).0 < (#[trigger] entries@[l]).0,
            decreases entries@.len() - i,
        {
            out.push(WorkerId(entries[i].0));
            i = i + 1;
        }
        proof {
            assert forall|x: WorkerId| #[trigger] out@.contains(x) <==> self.heard().contains_key(x.0) by {
                if out@.contains(x) {
                    let j = choose|j: int| 0 <= j < out@.len() && out@[j] == x;
                    assert(self.heard().contains_key(entries@[j].0));
                }
                if self.heard().contains_key(x.0) {
                    assert(entries@.contains((x.0, self.heard()[x.0])));
                    let j = choose|j: int| 0 <= j < entries@.len() && entries@[j] == (x.0, self.heard()[x.0]);
                    assert(out@[j] == x);
                }
            }
        }
        out
    }

    pub fn len(&self) -> (r: usize)
        ensures
            r == self.heard().len(),
    {
        self.workers.len()
    }

    pub fn is_empty(&self) -> (r: bool)
        ensures
            r == (self.heard().len() == 0),
    {
        self.workers.is_empty()
    }
}

impl Default for SupervisedWorkers {
    fn default() -> (r: SupervisedWorkers)
        ensures
            r.heard() == Map::<u128, SupervisedWorker>::empty(),
            r.idle() == Set::<u128>::empty(),
            r.wf(),
    {
        SupervisedWorkers::new()
    }
}

} // verus!
