//! End-to-end scenarios: control-plane events feed the node, requests are
//! routed, and the outcomes are checked against the documented behaviour.

use serverless::deployment::Deployment;
use serverless::dispatch::{ResponseEvent, RouteDecision, RunResult};
use serverless::node::{LogLevel, Node};
use serverless::reactor::{EventKind, EventPlan, Payload, plan_event};

fn deployment(
    id: &str,
    function_name: &str,
    domains: &[&str],
    is_production: bool,
    cron: Option<&str>,
    cron_region: &str,
) -> Deployment {
    Deployment {
        id: id.to_string(),
        function_id: "f1".to_string(),
        function_name: function_name.to_string(),
        assets: Vec::new(),
        domains: domains.iter().map(|d| d.to_string()).collect(),
        environment_variables: Vec::new(),
        memory: 128,
        tick_timeout: 100,
        total_timeout: 1000,
        is_production,
        cron: cron.map(|c| c.to_string()),
        cron_region: cron_region.to_string(),
    }
}

fn node() -> Node {
    Node::new("local".to_string(), "lagon.dev".to_string())
}

fn route(n: &mut Node, host: &str, path: &str, req: u64, now: u64) -> RouteDecision {
    n.route_request(&Some(host.to_string()), &path.to_string(), req, now)
}

#[test]
fn deploy_then_get() {
    let mut n = node();
    let d = deployment("d1", "hello", &["hello.example.com"], true, None, "local");
    let p = Payload { deployment: d, previous_deployment_id: None };
    assert_eq!(plan_event(EventKind::Deploy, &p, &n.region.clone()), EventPlan::Deploy);
    let registered = n.apply_deploy(&p.deployment, true);
    assert!(!registered);
    assert_eq!(n.counters.deployments_success, 1);

    let hit = n.registry.lookup(&"hello.example.com".to_string());
    assert!(hit.is_some());
    assert_eq!(hit.unwrap().id, "d1");

    match route(&mut n, "hello.example.com", "/", 1, 0) {
        RouteDecision::Enqueued(d) => assert_eq!(d.id, "d1"),
        other => panic!("expected a code request, got {:?}", kind_of(&other)),
    }
    // The isolate streams a successful response back.
    n.handle_response_event(
        ResponseEvent::Bytes(5, 42),
        &"f1".to_string(),
        &"d1".to_string(),
        0,
        7,
    );
    assert_eq!(n.request_rows.len(), 1);
    assert_eq!(n.request_rows[0].bytes_out, 5);
    assert_eq!(n.request_rows[0].cpu_time_micros, 42);
    assert_eq!(n.request_rows[0].region, "local");
    assert_eq!(n.log_rows.len(), 0);
}

#[test]
fn derived_production_domain_routes() {
    let mut n = node();
    let d = deployment("d1", "hello", &["hello.example.com"], true, None, "local");
    n.apply_deploy(&d, true);
    // A production deployment also answers under {function_name}.{root}.
    match route(&mut n, "hello.lagon.dev", "/", 1, 0) {
        RouteDecision::Enqueued(d) => assert_eq!(d.id, "d1"),
        other => panic!("expected a code request, got {:?}", kind_of(&other)),
    }
}

#[test]
fn unknown_host() {
    let mut n = node();
    match route(&mut n, "nope", "/", 1, 0) {
        RouteDecision::NoDeployment => {},
        other => panic!("expected no deployment, got {:?}", kind_of(&other)),
    }
    assert_eq!(n.counters.ignored_no_deployment, 1);
    assert_eq!(n.request_rows.len(), 0);
}

#[test]
fn missing_host_header() {
    let mut n = node();
    match n.route_request(&None, &"/".to_string(), 1, 0) {
        RouteDecision::NoHostname => {},
        other => panic!("expected a missing-host rejection, got {:?}", kind_of(&other)),
    }
    assert_eq!(n.counters.ignored_no_hostname, 1);
}

#[test]
fn cron_call_forbidden() {
    let mut n = node();
    let d = deployment(
        "d1",
        "hello",
        &["hello.example.com"],
        true,
        Some("*/5 * * * *"),
        "local",
    );
    let registered = n.apply_deploy(&d, true);
    assert!(registered);
    match route(&mut n, "hello.example.com", "/", 1, 0) {
        RouteDecision::Cron => {},
        other => panic!("expected a cron rejection, got {:?}", kind_of(&other)),
    }
    assert_eq!(n.counters.ignored_cron, 1);
    assert_eq!(n.pool.workers.len(), 0);
    // Every path is rejected alike.
    match route(&mut n, "hello.example.com", "/any/other/path", 2, 0) {
        RouteDecision::Cron => {},
        other => panic!("expected a cron rejection, got {:?}", kind_of(&other)),
    }
    assert_eq!(n.counters.ignored_cron, 2);
    assert_eq!(n.pool.workers.len(), 0);
}

#[test]
fn region_skip() {
    let n = node();
    let d = deployment(
        "d1",
        "hello",
        &["hello.example.com"],
        true,
        Some("*/5 * * * *"),
        "other",
    );
    let p = Payload { deployment: d, previous_deployment_id: None };
    assert_eq!(plan_event(EventKind::Deploy, &p, &n.region.clone()), EventPlan::Skip);
    assert_eq!(plan_event(EventKind::Promote, &p, &n.region.clone()), EventPlan::Skip);
    // Undeploys still reach every region.
    assert_eq!(plan_event(EventKind::Undeploy, &p, &n.region.clone()), EventPlan::Undeploy);
    // Unknown kinds are dropped.
    assert_eq!(plan_event(EventKind::Unknown, &p, &n.region.clone()), EventPlan::Skip);
}

#[test]
fn undeploy_terminates_worker() {
    let mut n = node();
    let d = deployment("d1", "hello", &["hello.example.com"], true, None, "local");
    n.apply_deploy(&d, true);
    match route(&mut n, "hello.example.com", "/", 1, 0) {
        RouteDecision::Enqueued(_) => {},
        other => panic!("expected a code request, got {:?}", kind_of(&other)),
    }
    assert!(n.pool.find(&"d1".to_string()).is_some());
    assert!(n.artifacts.contains(&"d1".to_string()));

    let had_worker = n.apply_undeploy(&d, true);
    assert!(had_worker);
    assert_eq!(n.counters.undeployments_success, 1);
    assert!(n.pool.find(&"d1".to_string()).is_none());
    assert!(!n.artifacts.contains(&"d1".to_string()));
    match route(&mut n, "hello.example.com", "/", 2, 0) {
        RouteDecision::NoDeployment => {},
        other => panic!("expected no deployment, got {:?}", kind_of(&other)),
    }
}

#[test]
fn promote_swaps_production() {
    let mut n = node();
    let d1 = deployment("d1", "hello", &["hello.example.com", "d1.ex"], true, None, "local");
    n.apply_deploy(&d1, true);
    let d2 = deployment("d2", "hello", &["d2.ex"], false, None, "local");
    n.apply_deploy(&d2, true);
    // d1 has a live worker before the promotion.
    route(&mut n, "hello.example.com", "/", 1, 0);
    assert!(n.pool.find(&"d1".to_string()).is_some());

    let promoted = deployment("d2", "hello", &["hello.example.com", "d2.ex"], true, None, "local");
    let prev = n.apply_promote(&promoted, &"d1".to_string());
    assert!(prev.is_some());
    assert_eq!(prev.unwrap().id, "d1");
    assert_eq!(n.counters.promotions, 1);

    let hello = n.registry.lookup(&"hello.example.com".to_string()).unwrap();
    assert_eq!(hello.id, "d2");
    let d2ex = n.registry.lookup(&"d2.ex".to_string()).unwrap();
    assert_eq!(d2ex.id, "d2");
    let d1ex = n.registry.lookup(&"d1.ex".to_string()).unwrap();
    assert_eq!(d1ex.id, "d1");
    assert!(!d1ex.is_production);
    // The worker of the demoted deployment is gone.
    assert!(n.pool.find(&"d1".to_string()).is_none());
}

#[test]
fn timeout_accounting() {
    let mut n = node();
    n.handle_response_event(
        ResponseEvent::LimitsReached(RunResult::Timeout),
        &"f1".to_string(),
        &"d1".to_string(),
        0,
        9,
    );
    assert_eq!(n.counters.isolate_timeouts, 1);
    assert_eq!(n.request_rows.len(), 0);
    assert_eq!(n.log_rows.len(), 1);
    assert_eq!(n.log_rows[0].level, LogLevel::Warn);
    assert_eq!(n.log_rows[0].message, "Function execution timed out");
    assert_eq!(n.log_rows[0].deployment_id, "d1");
    assert_eq!(n.log_rows[0].timestamp, 9);
}

fn kind_of(r: &RouteDecision) -> &'static str {
    match r {
        RouteDecision::NoHostname => "NoHostname",
        RouteDecision::NoDeployment => "NoDeployment",
        RouteDecision::Cron => "Cron",
        RouteDecision::Asset(_, _) => "Asset",
        RouteDecision::FaviconMiss => "FaviconMiss",
        RouteDecision::Enqueued(_) => "Enqueued",
    }
}
