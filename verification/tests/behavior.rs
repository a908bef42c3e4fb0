//! Behaviour of the parts: worker pool order and lifecycle, idle eviction,
//! asset classification, error messages, cron seeding.

use serverless::deployment::Deployment;
use serverless::dispatch::{ResponseEvent, RouteDecision, RunResult, find_asset};
use serverless::node::{LogLevel, Node};
use serverless::pool::WorkerPool;

fn deployment_with_assets(id: &str, domains: &[&str], assets: &[&str]) -> Deployment {
    Deployment {
        id: id.to_string(),
        function_id: "f1".to_string(),
        function_name: "hello".to_string(),
        assets: assets.iter().map(|a| a.to_string()).collect(),
        domains: domains.iter().map(|d| d.to_string()).collect(),
        environment_variables: Vec::new(),
        memory: 128,
        tick_timeout: 100,
        total_timeout: 1000,
        is_production: false,
        cron: None,
        cron_region: "local".to_string(),
    }
}

fn node() -> Node {
    Node::new("local".to_string(), "lagon.dev".to_string())
}

#[test]
fn one_worker_per_deployment() {
    let mut pool = WorkerPool::new();
    let id = "d1".to_string();
    let a = pool.get_or_create(&id);
    let b = pool.get_or_create(&id);
    assert_eq!(a, b);
    assert_eq!(pool.workers.len(), 1);
    let other = pool.get_or_create(&"d2".to_string());
    assert_ne!(a, other);
    assert_eq!(pool.workers.len(), 2);
}

#[test]
fn worker_serves_in_fifo_order() {
    let mut pool = WorkerPool::new();
    let id = "d1".to_string();
    let idx = pool.get_or_create(&id);
    pool.enqueue(idx, 10);
    pool.enqueue(idx, 11);
    pool.enqueue(idx, 12);
    assert_eq!(pool.serve_next(idx), Some(10));
    assert_eq!(pool.serve_next(idx), Some(11));
    assert_eq!(pool.serve_next(idx), Some(12));
    assert_eq!(pool.serve_next(idx), None);
    assert_eq!(pool.workers[idx].served, vec![10, 11, 12]);
}

#[test]
fn terminate_is_idempotent() {
    let mut pool = WorkerPool::new();
    let id = "d1".to_string();
    pool.get_or_create(&id);
    assert!(pool.terminate(&id));
    assert!(!pool.terminate(&id));
    assert_eq!(pool.workers.len(), 0);
}

#[test]
fn worker_exit_spares_successor() {
    let mut pool = WorkerPool::new();
    let id = "d1".to_string();
    let idx = pool.get_or_create(&id);
    let first_generation = pool.workers[idx].generation;
    // The first worker is replaced before it exits.
    pool.terminate(&id);
    pool.get_or_create(&id);
    // The late exit of the first worker must not remove its successor.
    assert!(!pool.worker_exit(&id, first_generation));
    assert_eq!(pool.workers.len(), 1);
    let successor_generation = pool.workers[0].generation;
    assert!(pool.worker_exit(&id, successor_generation));
    assert_eq!(pool.workers.len(), 0);
}

#[test]
fn idle_worker_is_evicted() {
    let mut n = node();
    let d = deployment_with_assets("d1", &["a.ex"], &[]);
    n.apply_deploy(&d, true);
    n.route_request(&Some("a.ex".to_string()), &"/".to_string(), 1, 1000);
    assert!(n.pool.find(&"d1".to_string()).is_some());

    // Not yet idle: nothing happens.
    let evicted = n.evict_idle(1500, 600);
    assert!(evicted.is_empty());
    assert!(n.pool.find(&"d1".to_string()).is_some());

    // Past the idle deadline: the worker and the stamp go away.
    let evicted = n.evict_idle(1600, 600);
    assert_eq!(evicted, vec!["d1".to_string()]);
    assert!(n.pool.find(&"d1".to_string()).is_none());
    assert!(!n.activity.contains(&"d1".to_string()));
}

#[test]
fn asset_request_skips_the_worker() {
    let mut n = node();
    let d = deployment_with_assets("d1", &["a.ex"], &["logo.png"]);
    n.apply_deploy(&d, true);
    match n.route_request(&Some("a.ex".to_string()), &"/logo.png".to_string(), 1, 0) {
        RouteDecision::Asset(d, asset) => {
            assert_eq!(d.id, "d1");
            assert_eq!(asset, "logo.png");
        },
        _ => panic!("expected an asset decision"),
    }
    assert_eq!(n.pool.workers.len(), 0);
    assert!(!n.activity.contains(&"d1".to_string()));
}

#[test]
fn favicon_without_asset_is_a_miss() {
    let mut n = node();
    let d = deployment_with_assets("d1", &["a.ex"], &[]);
    n.apply_deploy(&d, true);
    match n.route_request(&Some("a.ex".to_string()), &"/favicon.ico".to_string(), 1, 0) {
        RouteDecision::FaviconMiss => {},
        _ => panic!("expected the favicon fallback"),
    }
    assert_eq!(n.pool.workers.len(), 0);
}

#[test]
fn favicon_asset_wins_over_fallback() {
    let mut n = node();
    let d = deployment_with_assets("d1", &["a.ex"], &["favicon.ico"]);
    n.apply_deploy(&d, true);
    match n.route_request(&Some("a.ex".to_string()), &"/favicon.ico".to_string(), 1, 0) {
        RouteDecision::Asset(_, asset) => assert_eq!(asset, "favicon.ico"),
        _ => panic!("expected the shipped favicon"),
    }
}

#[test]
fn find_asset_strips_leading_slash() {
    let assets = vec!["a/b.txt".to_string(), "c.txt".to_string()];
    assert_eq!(find_asset(&assets, &"/a/b.txt".to_string()), Some("a/b.txt".to_string()));
    assert_eq!(find_asset(&assets, &"c.txt".to_string()), Some("c.txt".to_string()));
    assert_eq!(find_asset(&assets, &"/missing".to_string()), None);
    assert_eq!(find_asset(&assets, &"".to_string()), None);
}

#[test]
fn error_message_carries_the_cause() {
    let mut n = node();
    n.handle_response_event(
        ResponseEvent::Error(RunResult::Error("boom".to_string())),
        &"f1".to_string(),
        &"d1".to_string(),
        0,
        1,
    );
    assert_eq!(n.log_rows.len(), 1);
    assert_eq!(n.log_rows[0].level, LogLevel::Error);
    assert_eq!(n.log_rows[0].message, "Function execution error: boom");
    assert_eq!(n.counters.isolate_errors, 1);
}

#[test]
fn memory_limit_accounting() {
    let mut n = node();
    n.handle_response_event(
        ResponseEvent::LimitsReached(RunResult::MemoryLimit),
        &"f1".to_string(),
        &"d1".to_string(),
        0,
        1,
    );
    assert_eq!(n.counters.isolate_memory_limits, 1);
    assert_eq!(n.log_rows[0].message, "Function execution memory limit reached");
    assert_eq!(n.log_rows[0].level, LogLevel::Warn);
}

#[test]
fn stream_done_without_data_is_an_error() {
    let mut n = node();
    n.handle_response_event(
        ResponseEvent::StreamDoneNoDataError,
        &"f1".to_string(),
        &"d1".to_string(),
        0,
        1,
    );
    assert_eq!(n.counters.isolate_errors, 1);
    assert_eq!(
        n.log_rows[0].message,
        "Function execution error: The stream was done before sending a response/data"
    );
}

#[test]
fn unknown_result_moves_no_counter() {
    let mut n = node();
    n.handle_response_event(
        ResponseEvent::UnexpectedStreamResult(RunResult::Other),
        &"f1".to_string(),
        &"d1".to_string(),
        0,
        1,
    );
    assert_eq!(n.counters.isolate_errors, 0);
    assert_eq!(n.counters.isolate_timeouts, 0);
    assert_eq!(n.counters.isolate_memory_limits, 0);
    assert_eq!(n.log_rows[0].message, "Unknown result");
    assert_eq!(n.log_rows[0].level, LogLevel::Warn);
}

#[test]
fn failed_download_leaves_registry_untouched() {
    let mut n = node();
    let d = deployment_with_assets("d1", &["a.ex"], &[]);
    let registered = n.apply_deploy(&d, false);
    assert!(!registered);
    assert_eq!(n.counters.deployments_error, 1);
    assert!(n.registry.lookup(&"a.ex".to_string()).is_none());
    assert!(!n.artifacts.contains(&"d1".to_string()));
}

#[test]
fn failed_removal_keeps_bindings() {
    let mut n = node();
    let d = deployment_with_assets("d1", &["a.ex"], &[]);
    n.apply_deploy(&d, true);
    n.apply_undeploy(&d, false);
    assert_eq!(n.counters.undeployments_error, 1);
    assert!(n.registry.lookup(&"a.ex".to_string()).is_some());
    assert!(n.artifacts.contains(&"d1".to_string()));
}

#[test]
fn cron_seeding_registers_each_deployment_once() {
    let mut n = node();
    let mut d = deployment_with_assets("d1", &["a.ex", "b.ex"], &[]);
    d.cron = Some("* * * * *".to_string());
    n.apply_deploy(&d, true);
    let plain = deployment_with_assets("d2", &["c.ex"], &[]);
    n.apply_deploy(&plain, true);

    // Two domains, one deployment: the seeding pass yields it once.
    let seeds = n.registry.cron_deployments();
    assert_eq!(seeds.len(), 1);
    assert_eq!(seeds[0].id, "d1");
}

#[test]
fn promote_without_previous_still_binds_new() {
    let mut n = node();
    let d2 = deployment_with_assets("d2", &["d2.ex"], &[]);
    let prev = n.apply_promote(&d2, &"ghost".to_string());
    assert!(prev.is_none());
    assert_eq!(n.counters.promotions, 1);
    assert_eq!(n.registry.lookup(&"d2.ex".to_string()).unwrap().id, "d2");
}

#[test]
fn script_log_becomes_one_row() {
    let mut n = node();
    n.record_script_log(
        LogLevel::Info,
        "hello from the script".to_string(),
        &Some(("d1".to_string(), "f1".to_string())),
        5,
    );
    assert_eq!(n.log_rows.len(), 1);
    assert_eq!(n.log_rows[0].deployment_id, "d1");
    assert_eq!(n.log_rows[0].function_id, "f1");
    assert_eq!(n.log_rows[0].level, LogLevel::Info);
    assert_eq!(n.log_rows[0].message, "hello from the script");

    // Without metadata the row carries empty ids.
    n.record_script_log(LogLevel::Log, "anon".to_string(), &None, 6);
    assert_eq!(n.log_rows[1].deployment_id, "");
    assert_eq!(n.log_rows[1].function_id, "");
}
