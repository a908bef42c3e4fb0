//! The request dispatcher: resolves a request to a deployment by its Host
//! header, classifies it (static asset, favicon fallback, code request),
//! hands code requests to the worker pool, and turns the isolate's reply
//! stream into usage accounting: one request row per served request, one
//! log row per error path.

use vstd::prelude::*;
use vstd::string::{StrSliceExecFns, StringExecFns};
use crate::deployment::{Deployment, DeploymentModel, spec_is_cron};
use crate::node::{Counters, LogLevel, LogRow, Node, RequestRow, bumped};
use crate::pool::{bump, lemma_worker_singleton};

verus! {

/// What a script run came to, as the isolate reports it.
pub enum RunResult {
    Timeout,
    MemoryLimit,
    Error(String),
    /// Any terminal outcome the error handler has no special case for.
    Other,
}

/// One event of the isolate's reply stream, as the response handler sees
/// it.
pub enum ResponseEvent {
    /// Terminal success: bytes written to the client and CPU time spent.
    Bytes(u64, u64),
    /// The stream ended before any response or data was sent.
    StreamDoneNoDataError,
    UnexpectedStreamResult(RunResult),
    LimitsReached(RunResult),
    Error(RunResult),
}

/// The severity the error handler assigns to a run result.
pub open spec fn run_level(r: RunResult) -> LogLevel {
    match r {
        RunResult::Error(_) => LogLevel::Error,
        _ => LogLevel::Warn,
    }
}

/// The message the error handler logs for a run result.
pub open spec fn run_message(r: RunResult) -> Seq<char> {
    match r {
        RunResult::Timeout => "Function execution timed out"@,
        RunResult::MemoryLimit => "Function execution memory limit reached"@,
        RunResult::Error(e) => "Function execution error: "@ + e@,
        RunResult::Other => "Unknown result"@,
    }
}

/// The counters after recording a run result: timeouts, memory limits and
/// errors each move their own counter; anything else moves none.
pub open spec fn run_counters(c: Counters, r: RunResult) -> Counters {
    match r {
        RunResult::Timeout => Counters { isolate_timeouts: bump(c.isolate_timeouts), ..c },
        RunResult::MemoryLimit => Counters {
            isolate_memory_limits: bump(c.isolate_memory_limits),
            ..c
        },
        RunResult::Error(_) => Counters { isolate_errors: bump(c.isolate_errors), ..c },
        RunResult::Other => c,
    }
}

/// The severity logged for a reply-stream event that was not a success.
pub open spec fn event_level(e: ResponseEvent) -> LogLevel {
    match e {
        ResponseEvent::Bytes(_, _) => LogLevel::Warn,
        ResponseEvent::StreamDoneNoDataError => LogLevel::Error,
        ResponseEvent::UnexpectedStreamResult(r) => run_level(r),
        ResponseEvent::LimitsReached(r) => run_level(r),
        ResponseEvent::Error(r) => run_level(r),
    }
}

/// The message logged for a reply-stream event that was not a success.
pub open spec fn event_message(e: ResponseEvent) -> Seq<char> {
    match e {
        ResponseEvent::Bytes(_, _) => Seq::empty(),
        ResponseEvent::StreamDoneNoDataError => "Function execution error: "@
            + "The stream was done before sending a response/data"@,
        ResponseEvent::UnexpectedStreamResult(r) => run_message(r),
        ResponseEvent::LimitsReached(r) => run_message(r),
        ResponseEvent::Error(r) => run_message(r),
    }
}

/// The counters after a reply-stream event.
pub open spec fn event_counters(c: Counters, e: ResponseEvent) -> Counters {
    match e {
        ResponseEvent::Bytes(_, _) => c,
        ResponseEvent::StreamDoneNoDataError => Counters {
            isolate_errors: bump(c.isolate_errors),
            ..c
        },
        ResponseEvent::UnexpectedStreamResult(r) => run_counters(c, r),
        ResponseEvent::LimitsReached(r) => run_counters(c, r),
        ResponseEvent::Error(r) => run_counters(c, r),
    }
}

/// The request path with its leading slash removed; assets are shipped
/// under relative paths.
pub open spec fn strip_slash(p: Seq<char>) -> Seq<char> {
    if p.len() > 0 && p[0] == '/' {
        p.drop_first()
    } else {
        p
    }
}

/// Whether the deployment ships an asset under the request path.
pub open spec fn spec_has_asset(d: DeploymentModel, path: Seq<char>) -> bool {
    d.assets.contains(strip_slash(path))
}

/// String equality by contents.
fn str_eq(a: &str, b: &str) -> (r: bool)
    ensures
        r == (a@ == b@),
{
    let x = a.to_owned();
    let y = b.to_owned();
    x == y
}

/// The asset the deployment ships under the request path, if any.
pub fn find_asset(assets: &Vec<String>, path: &String) -> (r: Option<String>)
    ensures
        match r {
            Some(a) => a@ == strip_slash(path@) && assets.deep_view().contains(strip_slash(path@)),
            None => !assets.deep_view().contains(strip_slash(path@)),
        },
{
    let p = path.as_str();
    let n = p.unicode_len();
    let rel: &str = if n >= 1 && p.get_char(0) == '/' {
        p.substring_char(1, n)
    } else {
        p
    };
    proof {
        assert(rel@ == strip_slash(path@));
    }
    let mut i: usize = 0;
    while i < assets.len()
        invariant
            i <= assets@.len(),
            rel@ == strip_slash(path@),
            forall|j: int| 0 <= j < i ==> assets.deep_view()[j] != rel@,
        decreases assets@.len() - i,
    {
        if str_eq(assets[i].as_str(), rel) {
            proof {
                assert(assets.deep_view()[i as int] == rel@);
            }
            return Some(assets[i].clone());
        }
        i = i + 1;
    }
    proof {
        if assets.deep_view().contains(rel@) {
            let j = choose|j: int|
                0 <= j < assets.deep_view().len() && assets.deep_view()[j] == rel@;
            assert(false);
        }
    }
    None
}

/// What the dispatcher decided for one inbound request.
pub enum RouteDecision {
    /// No Host header: 404 with the canonical not-found body.
    NoHostname,
    /// No deployment bound under the host: 404 with the canonical body.
    NoDeployment,
    /// The deployment is a cron job: 403 with the canonical forbidden body.
    Cron,
    /// A shipped asset matches the path: serve it from disk.
    Asset(Deployment, String),
    /// The favicon fallback: 404 with an empty body.
    FaviconMiss,
    /// A code request, stamped and enqueued to the deployment's worker.
    Enqueued(Deployment),
}

impl Node {
    /// Routes one inbound request. Cron deployments are never enqueued; an
    /// asset or favicon outcome touches neither the pool nor the activity
    /// clock; only a code request stamps the clock and reaches a worker.
    pub fn route_request(
        &mut self,
        host: &Option<String>,
        path: &String,
        request_id: u64,
        now: u64,
    ) -> (r: RouteDecision)
        requires
            old(self).wf(),
        ensures
            final(self).wf(),
            final(self).registry == old(self).registry,
            final(self).artifacts == old(self).artifacts,
            final(self).crons == old(self).crons,
            final(self).request_rows == old(self).request_rows,
            final(self).log_rows == old(self).log_rows,
            final(self).region == old(self).region,
            final(self).root_domain == old(self).root_domain,
            (*host) is None ==> {
                &&& r is NoHostname
                &&& final(self).counters == (Counters {
                    ignored_no_hostname: bump(old(self).counters.ignored_no_hostname),
                    ..old(self).counters
                })
                &&& final(self).pool == old(self).pool
                &&& final(self).activity == old(self).activity
            },
            forall|h: String|
                (*host == Some(h) && !old(self).registry@.contains_key(h@)) ==> {
                    &&& r is NoDeployment
                    &&& final(self).counters == (Counters {
                        ignored_no_deployment: bump(old(self).counters.ignored_no_deployment),
                        ..old(self).counters
                    })
                    &&& final(self).pool == old(self).pool
                    &&& final(self).activity == old(self).activity
                },
            forall|h: String|
                (*host == Some(h) && old(self).registry@.contains_key(h@) && spec_is_cron(
                    old(self).registry@[h@],
                )) ==> {
                    &&& r is Cron
                    &&& final(self).counters == (Counters {
                        ignored_cron: bump(old(self).counters.ignored_cron),
                        ..old(self).counters
                    })
                    &&& final(self).pool == old(self).pool
                    &&& final(self).activity == old(self).activity
                },
            forall|h: String|
                (*host == Some(h) && old(self).registry@.contains_key(h@) && !spec_is_cron(
                    old(self).registry@[h@],
                ) && spec_has_asset(old(self).registry@[h@], path@)) ==> {
                    &&& (match r {
                        RouteDecision::Asset(d, a) => d@ == old(self).registry@[h@] && a@
                            == strip_slash(path@),
                        _ => false,
                    })
                    &&& final(self).counters == old(self).counters
                    &&& final(self).pool == old(self).pool
                    &&& final(self).activity == old(self).activity
                },
            forall|h: String|
                (*host == Some(h) && old(self).registry@.contains_key(h@) && !spec_is_cron(
                    old(self).registry@[h@],
                ) && !spec_has_asset(old(self).registry@[h@], path@) && path@
                    == "/favicon.ico"@) ==> {
                    &&& r is FaviconMiss
                    &&& final(self).counters == old(self).counters
                    &&& final(self).pool == old(self).pool
                    &&& final(self).activity == old(self).activity
                },
            forall|h: String|
                (*host == Some(h) && old(self).registry@.contains_key(h@) && !spec_is_cron(
                    old(self).registry@[h@],
                ) && !spec_has_asset(old(self).registry@[h@], path@) && path@
                    != "/favicon.ico"@) ==> {
                    &&& (match r {
                        RouteDecision::Enqueued(d) => d@ == old(self).registry@[h@],
                        _ => false,
                    })
                    &&& final(self).counters == old(self).counters
                    &&& final(self).activity@ == old(self).activity@.insert(
                        old(self).registry@[h@].id,
                        now,
                    )
                    &&& final(self).pool.has_worker(old(self).registry@[h@].id)
                    &&& forall|k: Seq<char>|
                        k != old(self).registry@[h@].id ==> final(self).pool.has_worker(k) == old(
                            self,
                        ).pool.has_worker(k)
                    &&& final(self).pool.pending_of(old(self).registry@[h@].id) == old(
                        self,
                    ).pool.pending_of(old(self).registry@[h@].id).push(request_id)
                    &&& final(self).pool.arrivals_of(old(self).registry@[h@].id) == old(
                        self,
                    ).pool.arrivals_of(old(self).registry@[h@].id).push(request_id)
                },
    {
        let host_s = match host {
            Some(h) => h,
            None => {
                self.counters.ignored_no_hostname = bumped(self.counters.ignored_no_hostname);
                return RouteDecision::NoHostname;
            },
        };
        let found = match self.registry.lookup(host_s) {
            Some(d) => Some(d.duplicate()),
            None => None,
        };
        let d = match found {
            Some(d) => d,
            None => {
                self.counters.ignored_no_deployment = bumped(self.counters.ignored_no_deployment);
                return RouteDecision::NoDeployment;
            },
        };
        if d.cron.is_some() {
            self.counters.ignored_cron = bumped(self.counters.ignored_cron);
            return RouteDecision::Cron;
        }
        if let Some(asset) = find_asset(&d.assets, path) {
            return RouteDecision::Asset(d, asset);
        }
        if str_eq(path.as_str(), "/favicon.ico") {
            return RouteDecision::FaviconMiss;
        }
        self.activity.insert(d.id.clone(), now);
        let ghost pool0 = self.pool;
        let idx = self.pool.get_or_create(&d.id);
        let ghost pool1 = self.pool;
        self.pool.enqueue(idx, request_id);
        proof {
            let idv = d.id@;
            assert(pool1.ids()[idx as int] == idv);
            if !pool0.has_worker(idv) {
                assert(pool1.ids() =~= pool0.ids().push(idv));
            }
            assert forall|k: Seq<char>|
                k != idv implies self.pool.has_worker(k) == pool0.has_worker(k) by {
                assert(self.pool.ids() == pool1.ids());
                if pool0.has_worker(idv) {
                } else {
                    if pool0.has_worker(k) {
                        let j = choose|j: int|
                            0 <= j < pool0.ids().len() && pool0.ids()[j] == k;
                        assert(pool1.ids()[j] == k);
                    }
                    if pool1.has_worker(k) {
                        let j = choose|j: int|
                            0 <= j < pool1.ids().len() && pool1.ids()[j] == k;
                        assert(j < pool0.ids().len());
                        assert(pool0.ids()[j] == k);
                    }
                }
            }
            assert(self.pool.has_worker(idv)) by {
                assert(self.pool.ids() == pool1.ids());
                assert(pool1.ids()[idx as int] == idv);
            }
            let i1 = pool1.index_of(idv);
            assert(pool1.has_worker(idv));
            lemma_worker_singleton(&pool1, idv, i1, idx as int);
            assert(pool1.pending_of(idv) == pool1.workers@[idx as int].pending@);
            assert(pool1.arrivals_of(idv) == pool1.workers@[idx as int].arrivals@);
            assert(pool1.pending_of(idv) == pool0.pending_of(idv)) by {
                if pool0.has_worker(idv) {
                } else {
                    assert(pool1.workers@[idx as int].pending@ == Seq::<u64>::empty());
                }
            }
            assert(pool1.arrivals_of(idv) == pool0.arrivals_of(idv)) by {
                if pool0.has_worker(idv) {
                } else {
                    assert(pool1.workers@[idx as int].wf());
                    assert(pool1.workers@[idx as int].arrivals@ =~= Seq::<u64>::empty());
                }
            }
            let i2 = self.pool.index_of(idv);
            assert(self.pool.has_worker(idv));
            lemma_worker_singleton(&self.pool, idv, i2, idx as int);
            assert(self.pool.pending_of(idv) == pool1.workers@[idx as int].pending@.push(
                request_id,
            ));
            assert(self.pool.arrivals_of(idv) == pool1.workers@[idx as int].arrivals@.push(
                request_id,
            ));
        }
        RouteDecision::Enqueued(d)
    }

    /// Records a run result on the error path: moves the matching counter
    /// and writes exactly one log row.
    pub fn handle_error(
        &mut self,
        result: RunResult,
        function_id: &String,
        deployment_id: &String,
        timestamp: u64,
    )
        requires
            old(self).wf(),
        ensures
            final(self).wf(),
            final(self).registry == old(self).registry,
            final(self).pool == old(self).pool,
            final(self).activity == old(self).activity,
            final(self).artifacts == old(self).artifacts,
            final(self).crons == old(self).crons,
            final(self).request_rows == old(self).request_rows,
            final(self).region == old(self).region,
            final(self).root_domain == old(self).root_domain,
            final(self).counters == run_counters(old(self).counters, result),
            final(self).log_rows@.len() == old(self).log_rows@.len() + 1,
            final(self).log_rows@.drop_last() == old(self).log_rows@,
            final(self).log_rows@.last().function_id@ == function_id@,
            final(self).log_rows@.last().deployment_id@ == deployment_id@,
            final(self).log_rows@.last().level == run_level(result),
            final(self).log_rows@.last().message@ == run_message(result),
            final(self).log_rows@.last().region@ == old(self).region@,
            final(self).log_rows@.last().timestamp == timestamp,
    {
        let (level, message) = match &result {
            RunResult::Timeout => {
                self.counters.isolate_timeouts = bumped(self.counters.isolate_timeouts);
                (LogLevel::Warn, "Function execution timed out".to_owned())
            },
            RunResult::MemoryLimit => {
                self.counters.isolate_memory_limits = bumped(self.counters.isolate_memory_limits);
                (LogLevel::Warn, "Function execution memory limit reached".to_owned())
            },
            RunResult::Error(e) => {
                self.counters.isolate_errors = bumped(self.counters.isolate_errors);
                (LogLevel::Error, "Function execution error: ".to_owned().concat(e.as_str()))
            },
            RunResult::Other => (LogLevel::Warn, "Unknown result".to_owned()),
        };
        let row = LogRow {
            function_id: function_id.clone(),
            deployment_id: deployment_id.clone(),
            level,
            message,
            region: self.region.clone(),
            timestamp,
        };
        self.log_rows.push(row);
        proof {
            assert(self.log_rows@.drop_last() =~= old(self).log_rows@);
        }
    }

    /// Consumes one terminal reply-stream event. A success writes exactly
    /// one request row and no log row; every error path writes exactly one
    /// log row and no request row.
    pub fn handle_response_event(
        &mut self,
        event: ResponseEvent,
        function_id: &String,
        deployment_id: &String,
        bytes_in: u64,
        timestamp: u64,
    )
        requires
            old(self).wf(),
        ensures
            final(self).wf(),
            final(self).registry == old(self).registry,
            final(self).pool == old(self).pool,
            final(self).activity == old(self).activity,
            final(self).artifacts == old(self).artifacts,
            final(self).crons == old(self).crons,
            final(self).region == old(self).region,
            final(self).root_domain == old(self).root_domain,
            final(self).counters == event_counters(old(self).counters, event),
            event matches ResponseEvent::Bytes(_, _) ==> {
                &&& final(self).log_rows == old(self).log_rows
                &&& final(self).request_rows@.len() == old(self).request_rows@.len() + 1
                &&& final(self).request_rows@.drop_last() == old(self).request_rows@
                &&& final(self).request_rows@.last().function_id@ == function_id@
                &&& final(self).request_rows@.last().deployment_id@ == deployment_id@
                &&& final(self).request_rows@.last().region@ == old(self).region@
                &&& final(self).request_rows@.last().bytes_in == bytes_in
                &&& (match event {
                    ResponseEvent::Bytes(b, c) => final(self).request_rows@.last().bytes_out == b
                        && final(self).request_rows@.last().cpu_time_micros == c,
                    _ => false,
                })
                &&& final(self).request_rows@.last().timestamp == timestamp
            },
            !(event matches ResponseEvent::Bytes(_, _)) ==> {
                &&& final(self).request_rows == old(self).request_rows
                &&& final(self).log_rows@.len() == old(self).log_rows@.len() + 1
                &&& final(self).log_rows@.drop_last() == old(self).log_rows@
                &&& final(self).log_rows@.last().function_id@ == function_id@
                &&& final(self).log_rows@.last().deployment_id@ == deployment_id@
                &&& final(self).log_rows@.last().level == event_level(event)
                &&& final(self).log_rows@.last().message@ == event_message(event)
                &&& final(self).log_rows@.last().region@ == old(self).region@
                &&& final(self).log_rows@.last().timestamp == timestamp
            },
    {
        match event {
            ResponseEvent::Bytes(bytes_out, cpu_time_micros) => {
                let row = RequestRow {
                    function_id: function_id.clone(),
                    deployment_id: deployment_id.clone(),
                    region: self.region.clone(),
                    bytes_in,
                    bytes_out,
                    cpu_time_micros,
                    timestamp,
                };
                self.request_rows.push(row);
                proof {
                    assert(self.request_rows@.drop_last() =~= old(self).request_rows@);
                }
            },
            ResponseEvent::StreamDoneNoDataError => {
                self.handle_error(
                    RunResult::Error(
                        "The stream was done before sending a response/data".to_owned(),
                    ),
                    function_id,
                    deployment_id,
                    timestamp,
                );
            },
            ResponseEvent::UnexpectedStreamResult(result) => {
                self.handle_error(result, function_id, deployment_id, timestamp);
            },
            ResponseEvent::LimitsReached(result) => {
                self.handle_error(result, function_id, deployment_id, timestamp);
            },
            ResponseEvent::Error(result) => {
                self.handle_error(result, function_id, deployment_id, timestamp);
            },
        }
    }
}

} // verus!
