//! The node's state: registry, worker pool, last-activity clock, on-disk
//! artifact set, registered crons, metric counters and the rows bound for
//! the analytics sink. The reactor and the dispatcher mutate it; the
//! surrounding process performs the I/O their results call for.

use vstd::prelude::*;
use crate::assoc::{AssocMap, lemma_take_step};
use crate::pool::{WorkerPool, bump};
use crate::registry::Registry;

verus! {

/// The metric counters the node emits. Increments saturate instead of
/// wrapping.
pub struct Counters {
    pub deployments_success: u64,
    pub deployments_error: u64,
    pub undeployments_success: u64,
    pub undeployments_error: u64,
    pub promotions: u64,
    pub ignored_no_hostname: u64,
    pub ignored_no_deployment: u64,
    pub ignored_cron: u64,
    pub isolate_timeouts: u64,
    pub isolate_memory_limits: u64,
    pub isolate_errors: u64,
}

impl Counters {
    /// All counters at zero.
    pub open spec fn zero() -> Counters {
        Counters {
            deployments_success: 0u64,
            deployments_error: 0u64,
            undeployments_success: 0u64,
            undeployments_error: 0u64,
            promotions: 0u64,
            ignored_no_hostname: 0u64,
            ignored_no_deployment: 0u64,
            ignored_cron: 0u64,
            isolate_timeouts: 0u64,
            isolate_memory_limits: 0u64,
            isolate_errors: 0u64,
        }
    }

    pub fn new() -> (r: Counters)
        ensures
            r == Counters::zero(),
    {
        Counters {
            deployments_success: 0,
            deployments_error: 0,
            undeployments_success: 0,
            undeployments_error: 0,
            promotions: 0,
            ignored_no_hostname: 0,
            ignored_no_deployment: 0,
            ignored_cron: 0,
            isolate_timeouts: 0,
            isolate_memory_limits: 0,
            isolate_errors: 0,
        }
    }
}

/// A saturating increment.
pub fn bumped(c: u64) -> (r: u64)
    ensures
        r == bump(c),
{
    if c < u64::MAX {
        c + 1
    } else {
        c
    }
}

/// The severity of a sink log row. Rows on the error path are warnings or
/// errors; rows from in-script logging may carry any level.
#[derive(Clone, Copy, PartialEq, Eq, Structural, Debug)]
pub enum LogLevel {
    Log,
    Info,
    Warn,
    Error,
}

/// One row of the request table: written once per served code request.
pub struct RequestRow {
    pub function_id: String,
    pub deployment_id: String,
    pub region: String,
    pub bytes_in: u64,
    pub bytes_out: u64,
    pub cpu_time_micros: u64,
    pub timestamp: u64,
}

/// One row of the log table: written once per error path or in-script log.
pub struct LogRow {
    pub function_id: String,
    pub deployment_id: String,
    pub level: LogLevel,
    pub message: String,
    pub region: String,
    pub timestamp: u64,
}

/// The last-activity clock says the deployment has been quiet long enough
/// to evict its worker.
pub open spec fn spec_stale(activity: Map<Seq<char>, u64>, id: Seq<char>, now: u64, ttl: u64) -> bool {
    activity.contains_key(id) && activity[id] + ttl <= now
}

/// The whole node.
pub struct Node {
    /// This node's region, fixed at initialization.
    pub region: String,
    /// The root under which derived hostnames are exposed.
    pub root_domain: String,
    pub registry: Registry,
    pub pool: WorkerPool,
    /// Deployment id -> time of the last code request.
    pub activity: AssocMap<u64>,
    /// Deployment ids whose artifacts are on disk.
    pub artifacts: AssocMap<bool>,
    /// Deployment ids registered with the cron scheduler.
    pub crons: AssocMap<bool>,
    pub counters: Counters,
    /// Rows bound for the request table, oldest first.
    pub request_rows: Vec<RequestRow>,
    /// Rows bound for the log table, oldest first.
    pub log_rows: Vec<LogRow>,
}

impl Node {
    pub open spec fn wf(&self) -> bool {
        &&& self.registry.wf()
        &&& self.pool.wf()
        &&& self.activity.wf()
        &&& self.artifacts.wf()
        &&& self.crons.wf()
    }

    pub fn new(region: String, root_domain: String) -> (r: Node)
        ensures
            r.wf(),
            r.region@ == region@,
            r.root_domain@ == root_domain@,
            r.registry@ == Map::<Seq<char>, crate::deployment::DeploymentModel>::empty(),
            r.pool.workers@.len() == 0,
            r.activity@ == Map::<Seq<char>, u64>::empty(),
            r.artifacts@ == Map::<Seq<char>, bool>::empty(),
            r.crons@ == Map::<Seq<char>, bool>::empty(),
            r.counters == Counters::zero(),
            r.request_rows@.len() == 0,
            r.log_rows@.len() == 0,
    {
        Node {
            region,
            root_domain,
            registry: Registry::new(),
            pool: WorkerPool::new(),
            activity: AssocMap::new(),
            artifacts: AssocMap::new(),
            crons: AssocMap::new(),
            counters: Counters::new(),
            request_rows: Vec::new(),
            log_rows: Vec::new(),
        }
    }

    /// One tick of the idle evictor: every deployment whose last code
    /// request is at least `idle_ttl` old loses its activity entry and its
    /// worker. The returned ids are the evicted deployments; the running
    /// system sends each worker its terminate reason.
    pub fn evict_idle(&mut self, now: u64, idle_ttl: u64) -> (evicted: Vec<String>)
        requires
            old(self).wf(),
        ensures
            final(self).wf(),
            final(self).region == old(self).region,
            final(self).root_domain == old(self).root_domain,
            final(self).registry == old(self).registry,
            final(self).artifacts == old(self).artifacts,
            final(self).crons == old(self).crons,
            final(self).counters == old(self).counters,
            final(self).request_rows == old(self).request_rows,
            final(self).log_rows == old(self).log_rows,
            forall|k: Seq<char>|
                #[trigger] final(self).activity@.contains_key(k) == (old(
                    self,
                ).activity@.contains_key(k) && !spec_stale(old(self).activity@, k, now, idle_ttl)),
            forall|k: Seq<char>|
                final(self).activity@.contains_key(k) ==> final(self).activity@[k] == old(
                    self,
                ).activity@[k],
            forall|k: Seq<char>|
                #[trigger] final(self).pool.has_worker(k) == (old(self).pool.has_worker(k)
                    && !spec_stale(old(self).activity@, k, now, idle_ttl)),
            forall|j: int|
                0 <= j < evicted@.len() ==> spec_stale(
                    old(self).activity@,
                    (#[trigger] evicted@[j])@,
                    now,
                    idle_ttl,
                ),
            forall|k: Seq<char>|
                spec_stale(old(self).activity@, k, now, idle_ttl)
                    == evicted.deep_view().contains(k),
    {
        let n = self.activity.len();
        let mut evicted: Vec<String> = Vec::new();
        let mut i: usize = 0;
        while i < n
            invariant
                n == self.activity.spec_len(),
                i <= n,
                self.wf(),
                forall|j: int|
                    0 <= j < evicted@.len() ==> spec_stale(
                        self.activity@,
                        (#[trigger] evicted@[j])@,
                        now,
                        idle_ttl,
                    ),
                forall|x: int|
                    0 <= x < i ==> (spec_stale(
                        self.activity@,
                        (#[trigger] self.activity.pairs()[x]).0,
                        now,
                        idle_ttl,
                    ) == evicted.deep_view().contains(self.activity.pairs()[x].0)),
                forall|k: Seq<char>|
                    #[trigger] evicted.deep_view().contains(k) ==> exists|x: int|
                        0 <= x < i && (#[trigger] self.activity.pairs()[x]).0 == k,
            decreases n - i,
        {
            let ghost e_prev = evicted.deep_view();
            let id = self.activity.key_at(i);
            let stamp = *self.activity.value_at(i);
            proof {
                self.activity.lemma_entry_in_map(i as int);
                self.activity.lemma_keys_distinct();
            }
            let stale = now >= stamp && now - stamp >= idle_ttl;
            if stale {
                evicted.push(id.clone());
                proof {
                    assert(evicted.deep_view() =~= e_prev.push(self.activity.pairs()[i as int].0));
                }
            }
            i = i + 1;
            proof {
                let ki = self.activity.pairs()[i - 1].0;
                lemma_push_contains(e_prev, ki);
                assert forall|x: int|
                    0 <= x < i implies (spec_stale(
                    self.activity@,
                    (#[trigger] self.activity.pairs()[x]).0,
                    now,
                    idle_ttl,
                ) == evicted.deep_view().contains(self.activity.pairs()[x].0)) by {
                    let k = self.activity.pairs()[x].0;
                    self.activity.lemma_entry_in_map(x);
                    if x < i - 1 {
                        assert(k != ki);
                        if stale {
                            assert(evicted.deep_view().contains(k) == e_prev.contains(k));
                        }
                    } else {
                        if stale {
                            assert(evicted.deep_view().contains(ki));
                            assert(spec_stale(self.activity@, ki, now, idle_ttl));
                        } else {
                            assert(!spec_stale(self.activity@, ki, now, idle_ttl));
                            if evicted.deep_view().contains(ki) {
                                let x2 = choose|x2: int|
                                    0 <= x2 < i - 1 && (#[trigger] self.activity.pairs()[x2]).0
                                        == ki;
                                assert(false);
                            }
                        }
                    }
                }
                assert forall|k: Seq<char>|
                    #[trigger] evicted.deep_view().contains(k) implies exists|x: int|
                    0 <= x < i && (#[trigger] self.activity.pairs()[x]).0 == k by {
                    if e_prev.contains(k) {
                        let x = choose|x: int|
                            0 <= x < i - 1 && (#[trigger] self.activity.pairs()[x]).0 == k;
                    } else {
                        assert(stale && k == ki);
                    }
                }
            }
        }
        proof {
            assert forall|k: Seq<char>|
                spec_stale(self.activity@, k, now, idle_ttl) == #[trigger] evicted.deep_view()
                    .contains(k) by {
                if spec_stale(self.activity@, k, now, idle_ttl) {
                    self.activity.lemma_key_has_entry(k);
                    let x = choose|x: int|
                        0 <= x < self.activity.spec_len() && (#[trigger] self.activity.pairs()[x]).0
                            == k;
                }
            }
        }
        let ghost activity0 = self.activity@;
        let mut i: usize = 0;
        while i < evicted.len()
            invariant
                self.wf(),
                self.registry == old(self).registry,
                self.artifacts == old(self).artifacts,
                self.crons == old(self).crons,
                self.counters == old(self).counters,
                self.request_rows == old(self).request_rows,
                self.region == old(self).region,
                self.root_domain == old(self).root_domain,
                self.log_rows == old(self).log_rows,
                i <= evicted@.len(),
                forall|k: Seq<char>|
                    #[trigger] self.activity@.contains_key(k) == (activity0.contains_key(k)
                        && !evicted.deep_view().take(i as int).contains(k)),
                forall|k: Seq<char>| self.activity@.contains_key(k) ==> self.activity@[k]
                    == activity0[k],
                forall|k: Seq<char>|
                    #[trigger] self.pool.has_worker(k) == (old(self).pool.has_worker(k)
                        && !evicted.deep_view().take(i as int).contains(k)),
            decreases evicted@.len() - i,
        {
            let ghost a_prev = self.activity@;
            let ghost p_prev = self.pool;
            self.activity.remove(&evicted[i]);
            self.pool.terminate(&evicted[i]);
            i = i + 1;
            proof {
                lemma_take_step(evicted.deep_view(), i as int);
                let dv = evicted.deep_view();
                assert forall|k: Seq<char>|
                    #[trigger] self.activity@.contains_key(k) == (activity0.contains_key(k)
                        && !dv.take(i as int).contains(k)) by {
                    assert(self.activity@.contains_key(k) == (a_prev.contains_key(k) && k != dv[i
                        - 1]));
                }
                assert forall|k: Seq<char>|
                    #[trigger] self.pool.has_worker(k) == (old(self).pool.has_worker(k)
                        && !dv.take(i as int).contains(k)) by {
                    if k == dv[i - 1] {
                        assert(!self.pool.has_worker(k));
                    } else {
                        assert(self.pool.has_worker(k) == p_prev.has_worker(k));
                    }
                }
            }
        }
        proof {
            assert(evicted.deep_view().take(evicted@.len() as int) =~= evicted.deep_view());
        }
        evicted
    }

    /// Records one in-script log event as a sink row. The isolate tags each
    /// event with its deployment and function ids when it has them; without
    /// them the row carries empty ids.
    pub fn record_script_log(
        &mut self,
        level: LogLevel,
        message: String,
        metadata: &Option<(String, String)>,
        timestamp: u64,
    )
        requires
            old(self).wf(),
        ensures
            final(self).wf(),
            final(self).registry == old(self).registry,
            final(self).pool == old(self).pool,
            final(self).activity == old(self).activity,
            final(self).artifacts == old(self).artifacts,
            final(self).crons == old(self).crons,
            final(self).counters == old(self).counters,
            final(self).request_rows == old(self).request_rows,
            final(self).region == old(self).region,
            final(self).root_domain == old(self).root_domain,
            final(self).log_rows@.len() == old(self).log_rows@.len() + 1,
            final(self).log_rows@.drop_last() == old(self).log_rows@,
            final(self).log_rows@.last().deployment_id@ == (match *metadata {
                Some(m) => m.0@,
                None => Seq::<char>::empty(),
            }),
            final(self).log_rows@.last().function_id@ == (match *metadata {
                Some(m) => m.1@,
                None => Seq::<char>::empty(),
            }),
            final(self).log_rows@.last().level == level,
            final(self).log_rows@.last().message@ == message@,
            final(self).log_rows@.last().region@ == old(self).region@,
            final(self).log_rows@.last().timestamp == timestamp,
    {
        let (deployment_id, function_id) = match metadata {
            Some(m) => (m.0.clone(), m.1.clone()),
            None => (String::new(), String::new()),
        };
        let row = LogRow {
            function_id,
            deployment_id,
            level,
            message,
            region: self.region.clone(),
            timestamp,
        };
        self.log_rows.push(row);
        proof {
            assert(self.log_rows@.drop_last() =~= old(self).log_rows@);
        }
    }
}

/// Appending an element to a sequence adds exactly that element to the set
/// of values it contains.
proof fn lemma_push_contains(s: Seq<Seq<char>>, x: Seq<char>)
    ensures
        forall|y: Seq<char>| #[trigger] s.push(x).contains(y) == (s.contains(y) || y == x),
{
    assert forall|y: Seq<char>| #[trigger] s.push(x).contains(y) == (s.contains(y) || y == x) by {
        if s.push(x).contains(y) {
            let j = choose|j: int| 0 <= j < s.push(x).len() && s.push(x)[j] == y;
            if j < s.len() {
                assert(s[j] == y);
            }
        }
        if s.contains(y) {
            let j = choose|j: int| 0 <= j < s.len() && s[j] == y;
            assert(s.push(x)[j] == y);
        }
        if y == x {
            assert(s.push(x)[s.len() as int] == y);
        }
    }
}

} // verus!
