//! End-to-end scenarios: bootstrap, reload, commit and teardown.

use spirit::engine::Spirit;
use spirit::model::{ConfigSnapshot, Listen, TcpListen};
use spirit::Empty;
use spirit::reconcile::{ResourceHandle, ResourcePlugin};
use spirit::validation::Severity;

struct TcpPlugin {
    fail_port: Option<u16>,
    next_resource: u64,
    builds: usize,
}

impl TcpPlugin {
    fn ok() -> Self {
        TcpPlugin { fail_port: None, next_resource: 0, builds: 0 }
    }
}

impl ResourcePlugin for TcpPlugin {
    fn extract(&mut self, snapshot: &ConfigSnapshot) -> Vec<spirit::model::Desired> {
        spirit::model::extract_tcp(snapshot)
    }

    fn build(&mut self, sub: &Listen) -> Result<ResourceHandle, String> {
        self.builds += 1;
        if self.fail_port == Some(sub.port) {
            return Err("cannot bind".to_string());
        }
        self.next_resource += 1;
        Ok(ResourceHandle { id: self.next_resource })
    }
}

/// A plugin whose extraction refuses the configuration outright.
struct RefusingPlugin;

impl ResourcePlugin for RefusingPlugin {
    fn extract(&mut self, snapshot: &ConfigSnapshot) -> Vec<spirit::model::Desired> {
        let mut ds = spirit::model::extract_tcp(snapshot);
        for d in ds.iter_mut() {
            d.results.push(spirit::validation::ValidationResult::error(
                "refused by policy".to_string(),
            ));
        }
        ds
    }

    fn build(&mut self, _sub: &Listen) -> Result<ResourceHandle, String> {
        Ok(ResourceHandle { id: 99 })
    }
}

fn listener(port: u16, scale: usize, sleep: u64) -> TcpListen {
    TcpListen {
        listen: Listen { port, host: "::".to_string() },
        scale,
        error_sleep_ms: sleep,
        max_conn: 1000,
        extra_cfg: Empty {},
    }
}

fn snap(listeners: Vec<TcpListen>) -> ConfigSnapshot {
    ConfigSnapshot { listeners }
}

fn built(initial: ConfigSnapshot) -> (Spirit<TcpPlugin>, spirit::engine::ReloadReport) {
    Spirit::<TcpPlugin>::new(1, vec![15, 2, 3])
        .add_group(TcpPlugin::ok(), "tcp".to_string())
        .build(initial)
        .unwrap()
}

#[test]
fn scale_three_from_empty_installs_three() {
    let (_spirit, report) = built(snap(vec![listener(8080, 3, 100)]));
    assert!(report.committed);
    assert_eq!(report.installs.len(), 3);
    assert_eq!(report.retired.len(), 0);
    for install in &report.installs {
        assert_eq!(install.sub.port, 8080);
        assert_eq!(install.extra.error_sleep_ms, 100);
    }
    let ids: Vec<u64> = report.installs.iter().map(|i| i.instance).collect();
    assert_eq!(ids, vec![0, 1, 2]);
}

#[test]
fn identical_reload_is_idempotent() {
    let (mut spirit, first) = built(snap(vec![listener(8080, 3, 100)]));
    assert_eq!(first.installs.len(), 3);
    let report = spirit.reload(snap(vec![listener(8080, 3, 100)]));
    assert!(report.committed);
    assert_eq!(report.installs.len(), 0);
    assert_eq!(report.retired.len(), 0);
}

#[test]
fn changed_extra_config_replaces_instances() {
    let (mut spirit, first) = built(snap(vec![listener(9000, 2, 100)]));
    assert_eq!(first.installs.len(), 2);
    let old_ids: Vec<u64> = first.installs.iter().map(|i| i.instance).collect();
    // Same listening socket, different auxiliary configuration: every old
    // instance is retired and an equal count is installed afresh.
    let report = spirit.reload(snap(vec![listener(9000, 2, 250)]));
    assert!(report.committed);
    assert_eq!(report.retired.len(), 2);
    assert_eq!(report.installs.len(), 2);
    let retired_ids: Vec<u64> = report.retired.iter().map(|h| h.id).collect();
    assert_eq!(retired_ids, old_ids);
    for install in &report.installs {
        assert_eq!(install.extra.error_sleep_ms, 250);
        assert!(!old_ids.contains(&install.instance));
    }
    // The old supervisor halves are gone; retiring the handles completes.
    drop(first);
    for handle in report.retired {
        spirit::handshake::retire(handle);
    }
}

#[test]
fn scale_zero_coerced_to_one_with_warning() {
    let (_spirit, report) = built(snap(vec![listener(8080, 0, 100)]));
    assert!(report.committed);
    assert_eq!(report.installs.len(), 1);
    let warnings = report
        .results
        .results
        .iter()
        .filter(|r| r.severity == Severity::Warning)
        .count();
    assert_eq!(warnings, 1);
}

#[test]
fn build_failure_is_isolated_per_request() {
    let (mut spirit, _first) = built(snap(vec![listener(8080, 1, 100)]));
    assert_eq!(spirit.config().listeners.len(), 1);
    // Swap in a plugin that cannot build one of the desired sockets.
    spirit.groups[0].plugin.fail_port = Some(8082);
    let report = spirit.reload(snap(vec![
        listener(8080, 1, 100),
        listener(8081, 1, 100),
        listener(8082, 1, 100),
    ]));
    // The failure is scoped to its one request: the pass still commits,
    // the other requests reconcile normally, the failing one is reported
    // with its group name and identity and is absent from the new cache.
    assert!(report.committed);
    assert_eq!(report.build_failures.len(), 1);
    assert_eq!(report.build_failures[0].group, "tcp".to_string());
    assert_eq!(report.build_failures[0].failure.sub.port, 8082);
    assert_eq!(report.build_failures[0].failure.message, "cannot bind".to_string());
    assert_eq!(spirit.groups[0].cache.len(), 2);
    assert_eq!(spirit.groups[0].cache[0].sub.port, 8080);
    assert_eq!(spirit.groups[0].cache[1].sub.port, 8081);
    // The reused request kept its instance; only the new healthy one installs.
    assert_eq!(report.installs.len(), 1);
    assert_eq!(report.installs[0].sub.port, 8081);
    assert_eq!(report.retired.len(), 0);
    assert_eq!(spirit.config().listeners.len(), 3);
}

#[test]
fn terminate_with_two_running_confirms_both() {
    let (mut spirit, first) = built(snap(vec![listener(7000, 2, 100)]));
    assert_eq!(first.installs.len(), 2);
    let mut sup = spirit::supervisor::Supervisor::new();
    for install in &first.installs {
        let actions = sup.step(spirit::supervisor::Event::Install { instance: install.instance });
        assert_eq!(
            actions,
            vec![spirit::supervisor::Action::Start { instance: install.instance }]
        );
    }
    assert_eq!(sup.running(), 2);
    // The terminating signal ends the dispatch loop.
    let _actions = spirit.dispatcher.handle_signal(15);
    assert!(spirit.is_terminated());
    // Teardown: every running instance is stop-requested and each yields
    // exactly one cancel followed by one confirm, before shutdown proceeds.
    let report = spirit.reload(snap(vec![]));
    assert!(report.committed);
    assert_eq!(report.retired.len(), 2);
    let mut confirms = 0;
    for handle in &report.retired {
        let actions = sup.step(spirit::supervisor::Event::StopRequest { instance: handle.id });
        assert_eq!(
            actions,
            vec![
                spirit::supervisor::Action::Cancel { instance: handle.id },
                spirit::supervisor::Action::Confirm { instance: handle.id },
            ]
        );
        confirms += 1;
    }
    assert_eq!(confirms, 2);
    assert_eq!(sup.running(), 0);
}

#[test]
fn removing_a_group_retires_every_instance() {
    let (mut spirit, first) = built(snap(vec![listener(6000, 3, 100)]));
    assert_eq!(first.installs.len(), 3);
    let report = spirit.reload(snap(vec![]));
    assert!(report.committed);
    assert_eq!(report.installs.len(), 0);
    assert_eq!(report.retired.len(), 3);
    let ids: Vec<u64> = report.retired.iter().map(|h| h.id).collect();
    assert_eq!(ids, vec![0, 1, 2]);
}

#[test]
fn rejected_first_pass_on_validation_error() {
    // An extraction-produced error is a validation error: the first pass
    // is rejected and nothing is kept.
    let result = Spirit::<RefusingPlugin>::new(1, vec![15, 2, 3])
        .add_group(RefusingPlugin, "tcp".to_string())
        .build(snap(vec![listener(8080, 1, 100)]));
    let results = match result {
        Ok(_) => panic!("a failing first pass must not build"),
        Err(results) => results,
    };
    assert!(results.results.iter().any(|r| r.severity == Severity::Error));
}

#[test]
fn build_failure_at_bootstrap_is_isolated_too() {
    let mut plugin = TcpPlugin::ok();
    plugin.fail_port = Some(8080);
    let (spirit, report) = Spirit::<TcpPlugin>::new(1, vec![15, 2, 3])
        .add_group(plugin, "tcp".to_string())
        .build(snap(vec![listener(8080, 1, 100), listener(8081, 2, 100)]))
        .unwrap();
    assert!(report.committed);
    assert!(!spirit.is_terminated());
    assert_eq!(report.build_failures.len(), 1);
    assert_eq!(report.build_failures[0].failure.sub.port, 8080);
    assert_eq!(report.installs.len(), 2);
    assert_eq!(spirit.groups[0].cache.len(), 1);
    assert_eq!(spirit.groups[0].cache[0].sub.port, 8081);
}

#[test]
fn duplicate_sub_configurations_are_refused() {
    let (mut spirit, _first) = built(snap(vec![listener(8080, 1, 100)]));
    let report = spirit.reload(snap(vec![listener(5000, 1, 100), listener(5000, 2, 200)]));
    assert!(!report.committed);
    assert_eq!(spirit.config().listeners.len(), 1);
}

#[test]
fn exhausted_identity_space_is_refused() {
    let (mut spirit, _first) = built(snap(vec![listener(8080, 1, 100)]));
    // Two listeners asking for the largest possible scale overflow the
    // instance identity space; the reload is refused, nothing changes.
    let report = spirit.reload(snap(vec![
        listener(5000, usize::MAX, 100),
        listener(5001, usize::MAX, 100),
    ]));
    assert!(!report.committed);
    assert!(report
        .results
        .results
        .iter()
        .any(|r| r.severity == Severity::Error));
    assert_eq!(spirit.config().listeners.len(), 1);
}

#[test]
fn build_error_message_reaches_the_report() {
    let (mut spirit, _first) = built(snap(vec![listener(8080, 1, 100)]));
    spirit.groups[0].plugin.fail_port = Some(9999);
    let report = spirit.reload(snap(vec![listener(9999, 1, 100)]));
    // The builder's explanation is reported, scoped to its request; the
    // pass itself commits (the old listener had to go, the new one could
    // not be built).
    assert!(report.committed);
    assert!(report.results.results.iter().all(|r| r.severity != Severity::Error));
    assert_eq!(report.build_failures.len(), 1);
    assert_eq!(report.build_failures[0].failure.message, "cannot bind".to_string());
    assert_eq!(report.build_failures[0].failure.sub.port, 9999);
    assert_eq!(spirit.groups[0].cache.len(), 0);
    assert_eq!(report.retired.len(), 1);
}

#[test]
fn config_snapshot_swaps_only_on_commit() {
    let (mut spirit, _first) = built(snap(vec![listener(8080, 1, 100)]));
    assert_eq!(spirit.config().listeners[0].listen.port, 8080);
    let report = spirit.reload(snap(vec![listener(9090, 1, 100)]));
    assert!(report.committed);
    assert_eq!(spirit.config().listeners[0].listen.port, 9090);
}
