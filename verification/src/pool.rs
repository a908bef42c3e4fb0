//! The isolate worker pool: per deployment at most one live worker, each
//! owning a FIFO inbound queue of requests. The running system keeps a real
//! channel and thread per worker; this model carries the pool's decision
//! state: which workers exist, what each one still has to serve, and what it
//! has already replied to.

use vstd::prelude::*;

verus! {

/// One live worker: the host-side owner of a single isolate. Requests are
/// tracked by caller-chosen identifiers.
pub struct Worker {
    /// The deployment this worker executes.
    pub deployment_id: String,
    /// Distinguishes this worker from earlier or later workers of the same
    /// deployment, so an exiting worker never removes its successor's entry.
    pub generation: u64,
    /// Requests enqueued and not yet served, oldest first.
    pub pending: Vec<u64>,
    /// Requests already replied to, in reply order.
    pub served: Vec<u64>,
    /// Every request ever enqueued to this worker, in arrival order.
    pub arrivals: Ghost<Seq<u64>>,
}

impl Worker {
    /// What was served and what is pending partition the arrivals, in order.
    pub open spec fn wf(&self) -> bool {
        self.arrivals@ == self.served@ + self.pending@
    }
}

/// The pool: at most one worker per deployment id.
pub struct WorkerPool {
    pub workers: Vec<Worker>,
    pub next_generation: u64,
}

/// A saturating increment; the counter stops at the largest value instead
/// of wrapping.
pub open spec fn bump(c: u64) -> u64 {
    if c < u64::MAX {
        (c + 1) as u64
    } else {
        c
    }
}

impl WorkerPool {
    /// The deployment ids of the live workers, in storage order.
    pub open spec fn ids(&self) -> Seq<Seq<char>> {
        self.workers@.map_values(|w: Worker| w.deployment_id@)
    }

    pub open spec fn wf(&self) -> bool {
        &&& forall|i: int, j: int| 0 <= i < j < self.ids().len() ==> self.ids()[i] != self.ids()[j]
        &&& forall|i: int| 0 <= i < self.workers@.len() ==> (#[trigger] self.workers@[i]).wf()
    }

    pub open spec fn has_worker(&self, id: Seq<char>) -> bool {
        exists|i: int| 0 <= i < self.ids().len() && self.ids()[i] == id
    }

    /// The index of the live worker for the deployment; meaningful only
    /// when one exists.
    pub open spec fn index_of(&self, id: Seq<char>) -> int {
        choose|i: int| 0 <= i < self.ids().len() && self.ids()[i] == id
    }

    /// What the worker for the deployment still has to serve; empty when no
    /// worker is live.
    pub open spec fn pending_of(&self, id: Seq<char>) -> Seq<u64> {
        if self.has_worker(id) {
            self.workers@[self.index_of(id)].pending@
        } else {
            Seq::empty()
        }
    }

    /// Every request ever enqueued to the live worker for the deployment,
    /// in arrival order; empty when no worker is live.
    pub open spec fn arrivals_of(&self, id: Seq<char>) -> Seq<u64> {
        if self.has_worker(id) {
            self.workers@[self.index_of(id)].arrivals@
        } else {
            Seq::empty()
        }
    }

    pub fn new() -> (r: Self)
        ensures
            r.wf(),
            r.workers@.len() == 0,
    {
        WorkerPool { workers: Vec::new(), next_generation: 0 }
    }

    /// The index of the worker for the deployment, if one is live.
    pub fn find(&self, id: &String) -> (r: Option<usize>)
        ensures
            match r {
                Some(i) => i < self.workers@.len() && self.ids()[i as int] == id@,
                None => !self.has_worker(id@),
            },
    {
        let mut i: usize = 0;
        while i < self.workers.len()
            invariant
                i <= self.workers@.len(),
                forall|j: int| 0 <= j < i ==> self.ids()[j] != id@,
            decreases self.workers@.len() - i,
        {
            if self.workers[i].deployment_id == *id {
                return Some(i);
            }
            i = i + 1;
        }
        None
    }

    /// Atomic get-or-insert keyed by deployment id: the only way a worker
    /// comes to life. An existing worker is reused; otherwise a fresh one is
    /// appended with an empty queue and a fresh generation.
    pub fn get_or_create(&mut self, id: &String) -> (idx: usize)
        requires
            old(self).wf(),
        ensures
            final(self).wf(),
            idx < final(self).workers@.len(),
            final(self).ids()[idx as int] == id@,
            final(self).has_worker(id@),
            if old(self).has_worker(id@) {
                *final(self) == *old(self)
            } else {
                final(self).workers@ == old(self).workers@.push(
                    Worker {
                        deployment_id: final(self).workers@[idx as int].deployment_id,
                        generation: old(self).next_generation,
                        pending: final(self).workers@[idx as int].pending,
                        served: final(self).workers@[idx as int].served,
                        arrivals: final(self).workers@[idx as int].arrivals,
                    },
                ) && final(self).workers@[idx as int].pending@ == Seq::<u64>::empty()
                    && final(self).workers@[idx as int].served@ == Seq::<u64>::empty()
                    && final(self).next_generation == bump(old(self).next_generation)
            },
    {
        match self.find(id) {
            Some(i) => i,
            None => {
                let w = Worker {
                    deployment_id: id.clone(),
                    generation: self.next_generation,
                    pending: Vec::new(),
                    served: Vec::new(),
                    arrivals: Ghost(Seq::empty()),
                };
                let idx = self.workers.len();
                self.workers.push(w);
                if self.next_generation < u64::MAX {
                    self.next_generation = self.next_generation + 1;
                }
                proof {
                    assert(self.ids() =~= old(self).ids().push(id@));
                    assert(self.ids()[idx as int] == id@);
                }
                idx
            },
        }
    }

    /// Appends a request to the worker's inbound queue.
    pub fn enqueue(&mut self, idx: usize, request: u64)
        requires
            old(self).wf(),
            idx < old(self).workers@.len(),
        ensures
            final(self).wf(),
            final(self).workers@.len() == old(self).workers@.len(),
            final(self).ids() == old(self).ids(),
            final(self).next_generation == old(self).next_generation,
            final(self).workers@[idx as int].pending@ == old(self).workers@[idx as int].pending@
                .push(request),
            final(self).workers@[idx as int].served@ == old(self).workers@[idx as int].served@,
            final(self).workers@[idx as int].arrivals@ == old(self).workers@[idx as int].arrivals@
                .push(request),
            final(self).workers@[idx as int].deployment_id@ == old(self).workers@[
                idx as int
            ].deployment_id@,
            final(self).workers@[idx as int].generation == old(self).workers@[
                idx as int
            ].generation,
            forall|j: int|
                0 <= j < old(self).workers@.len() && j != idx ==> final(self).workers@[j] == old(self).workers@[j],
    {
        let mut w = self.workers.remove(idx);
        w.pending.push(request);
        w.arrivals = Ghost(w.arrivals@.push(request));
        self.workers.insert(idx, w);
        proof {
            assert(self.workers@ =~= old(self).workers@.update(
                idx as int,
                self.workers@[idx as int],
            ));
            assert(self.ids() =~= old(self).ids());
            assert(self.workers@[idx as int].wf()) by {
                assert(old(self).workers@[idx as int].wf());
            }
        }
    }

    /// Serves the oldest pending request of the worker: the reply that the
    /// dispatcher receives next. Requests leave in arrival order.
    pub fn serve_next(&mut self, idx: usize) -> (r: Option<u64>)
        requires
            old(self).wf(),
            idx < old(self).workers@.len(),
        ensures
            final(self).wf(),
            final(self).workers@.len() == old(self).workers@.len(),
            final(self).ids() == old(self).ids(),
            final(self).next_generation == old(self).next_generation,
            forall|j: int|
                0 <= j < old(self).workers@.len() && j != idx ==> final(self).workers@[j] == old(self).workers@[j],
            old(self).workers@[idx as int].pending@.len() == 0 ==> r is None && *final(self) == *old(self),
            old(self).workers@[idx as int].pending@.len() > 0 ==> {
                &&& r == Some(old(self).workers@[idx as int].pending@[0])
                &&& final(self).workers@[idx as int].pending@ == old(self).workers@[
                    idx as int
                ].pending@.drop_first()
                &&& final(self).workers@[idx as int].served@ == old(self).workers@[
                    idx as int
                ].served@.push(old(self).workers@[idx as int].pending@[0])
                &&& final(self).workers@[idx as int].arrivals@ == old(self).workers@[
                    idx as int
                ].arrivals@
                &&& final(self).workers@[idx as int].deployment_id@ == old(self).workers@[
                    idx as int
                ].deployment_id@
            },
    {
        if self.workers[idx].pending.len() == 0 {
            proof {
                assert(*final(self) == *old(self));
            }
            return None;
        }
        let mut w = self.workers.remove(idx);
        let req = w.pending.remove(0);
        w.served.push(req);
        self.workers.insert(idx, w);
        proof {
            assert(self.workers@ =~= old(self).workers@.update(
                idx as int,
                self.workers@[idx as int],
            ));
            assert(self.ids() =~= old(self).ids());
            assert(self.workers@[idx as int].pending@ =~= old(self).workers@[
                idx as int
            ].pending@.drop_first());
            assert(self.workers@[idx as int].wf()) by {
                assert(old(self).workers@[idx as int].wf());
                assert(self.workers@[idx as int].arrivals@ =~= self.workers@[idx as int].served@
                    + self.workers@[idx as int].pending@);
            }
        }
        Some(req)
    }

    /// Removes the worker for the deployment, whatever its generation: an
    /// explicit termination (undeployment, promotion, idle eviction). The
    /// running system then sends the terminate reason down the worker's
    /// channel. Idempotent.
    pub fn terminate(&mut self, id: &String) -> (r: bool)
        requires
            old(self).wf(),
        ensures
            final(self).wf(),
            !final(self).has_worker(id@),
            r == old(self).has_worker(id@),
            final(self).next_generation == old(self).next_generation,
            if r {
                exists|i: int|
                    0 <= i < old(self).workers@.len() && old(self).ids()[i] == id@ && final(self).workers@ == old(self).workers@.remove(i)
            } else {
                *final(self) == *old(self)
            },
            forall|k: Seq<char>|
                k != id@ ==> final(self).has_worker(k) == old(self).has_worker(k),
    {
        match self.find(id) {
            Some(i) => {
                self.workers.remove(i);
                proof {
                    assert(self.ids() =~= old(self).ids().remove(i as int));
                    assert forall|k: Seq<char>|
                        k != id@ implies self.has_worker(k) == old(self).has_worker(k) by {
                        if old(self).has_worker(k) {
                            let j = choose|j: int|
                                0 <= j < old(self).ids().len() && old(self).ids()[j] == k;
                            if j < i {
                                assert(self.ids()[j] == k);
                            } else {
                                assert(self.ids()[j - 1] == k);
                            }
                        }
                        if self.has_worker(k) {
                            let j = choose|j: int|
                                0 <= j < self.ids().len() && self.ids()[j] == k;
                            if j < i {
                                assert(old(self).ids()[j] == k);
                            } else {
                                assert(old(self).ids()[j + 1] == k);
                            }
                        }
                    }
                    assert(!self.has_worker(id@)) by {
                        if self.has_worker(id@) {
                            let j = choose|j: int|
                                0 <= j < self.ids().len() && self.ids()[j] == id@;
                            if j < i {
                                assert(old(self).ids()[j] == id@);
                            } else {
                                assert(old(self).ids()[j + 1] == id@);
                            }
                        }
                    }
                }
                true
            },
            None => false,
        }
    }

    /// A worker removes its own entry as it exits, but only if the entry is
    /// still its own: a successor of a newer generation is left alone.
    pub fn worker_exit(&mut self, id: &String, generation: u64) -> (r: bool)
        requires
            old(self).wf(),
        ensures
            final(self).wf(),
            final(self).next_generation == old(self).next_generation,
            r == exists|i: int|
                0 <= i < old(self).workers@.len() && old(self).ids()[i] == id@ && (
                #[trigger] old(self).workers@[i]).generation == generation,
            if r {
                exists|i: int|
                    0 <= i < old(self).workers@.len() && old(self).ids()[i] == id@ && old(self).workers@[i].generation == generation && final(self).workers@ == old(self).workers@.remove(i)
            } else {
                *final(self) == *old(self)
            },
    {
        match self.find(id) {
            Some(i) => {
                if self.workers[i].generation == generation {
                    proof {
                        assert(old(self).ids()[i as int] == id@ && old(self).workers@[
                            i as int
                        ].generation == generation);
                    }
                    self.workers.remove(i);
                    proof {
                        assert(self.ids() =~= old(self).ids().remove(i as int));
                    }
                    true
                } else {
                    proof {
                        assert forall|j: int|
                            0 <= j < old(self).workers@.len() && old(self).ids()[j] == id@
                                implies (#[trigger] old(self).workers@[j]).generation
                                != generation by {
                            assert(j == i);
                        }
                    }
                    false
                }
            },
            None => {
                proof {
                    assert forall|j: int|
                        0 <= j < old(self).workers@.len() implies old(self).ids()[j] != id@ by {}
                }
                false
            },
        }
    }
}

/// At any instant at most one worker serves a deployment: two live workers
/// with the same deployment id are the same worker.
pub proof fn lemma_worker_singleton(p: &WorkerPool, id: Seq<char>, i: int, j: int)
    requires
        p.wf(),
        0 <= i < p.ids().len(),
        0 <= j < p.ids().len(),
        p.ids()[i] == id,
        p.ids()[j] == id,
    ensures
        i == j,
{
}

/// Replies leave a worker in the order its requests arrived: what has been
/// served is exactly the first arrivals, in arrival order, and what is
/// pending follows in arrival order.
pub proof fn lemma_fifo(w: &Worker)
    requires
        w.wf(),
    ensures
        w.served@.len() + w.pending@.len() == w.arrivals@.len(),
        w.served@ == w.arrivals@.take(w.served@.len() as int),
        forall|k: int|
            0 <= k < w.pending@.len() ==> w.pending@[k] == w.arrivals@[w.served@.len() + k],
{
    assert(w.served@ =~= w.arrivals@.take(w.served@.len() as int));
}

} // verus!
