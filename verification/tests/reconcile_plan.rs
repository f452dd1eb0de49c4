//! The reconciler's planning, exercised directly.

use spirit::model::{ConfigSnapshot, Desired, Listen, TcpListen};
use spirit::Empty;
use spirit::reconcile::{plan, CachedEntry, ResourceHandle, ResourcePlugin};
use spirit::validation::{Severity, ValidationResults};

struct FailingPlugin {
    fail_port: Option<u16>,
    next_resource: u64,
}

impl ResourcePlugin for FailingPlugin {
    fn extract(&mut self, snapshot: &ConfigSnapshot) -> Vec<Desired> {
        spirit::model::extract_tcp(snapshot)
    }

    fn build(&mut self, sub: &Listen) -> Result<ResourceHandle, String> {
        if self.fail_port == Some(sub.port) {
            return Err("address already in use".to_string());
        }
        self.next_resource += 1;
        Ok(ResourceHandle { id: self.next_resource })
    }
}

fn desired(port: u16, scale: usize) -> Desired {
    Desired {
        sub: Listen { port, host: "::".to_string() },
        extra: spirit::model::ExtraConfig { error_sleep_ms: 100, max_conn: 1000 },
        scale,
        results: ValidationResults::new(),
    }
}

#[test]
fn build_failure_is_isolated_to_its_tuple() {
    // Three desired sockets, the middle one cannot be built: the other two
    // are planned normally, the failing one yields one reported failure and
    // is absent from the staged cache. The validation results stay clean:
    // a builder failure never blocks the commit.
    let cache: Vec<CachedEntry> = Vec::new();
    let mut plugin = FailingPlugin { fail_port: Some(2), next_resource: 0 };
    let ds = vec![desired(1, 1), desired(2, 1), desired(3, 2)];
    let (staged, results, failures, _outcomes) = plan(&cache, ds, &mut plugin, 0);
    assert_eq!(staged.entries.len(), 2);
    assert_eq!(staged.entries[0].sub.port, 1);
    assert_eq!(staged.entries[1].sub.port, 3);
    assert_eq!(staged.installs.len(), 3);
    assert_eq!(staged.keepers.len(), 3);
    assert!(results.committable());
    assert!(!results.results.iter().any(|r| r.severity == Severity::Error));
    assert_eq!(failures.len(), 1);
    assert_eq!(failures[0].sub.port, 2);
    assert_eq!(failures[0].message, "address already in use".to_string());
}

#[test]
fn fresh_plan_installs_one_per_desired_instance() {
    let cache: Vec<CachedEntry> = Vec::new();
    let mut plugin = FailingPlugin { fail_port: None, next_resource: 0 };
    let ds = vec![desired(1, 2), desired(2, 3)];
    let (staged, results, failures, _outcomes) = plan(&cache, ds, &mut plugin, 10);
    assert!(results.committable());
    assert_eq!(failures.len(), 0);
    assert_eq!(staged.installs.len(), 5);
    let ids: Vec<u64> = staged.installs.iter().map(|i| i.instance).collect();
    assert_eq!(ids, vec![10, 11, 12, 13, 14]);
    assert_eq!(staged.next_id, 15);
    // The reconciler's halves pair up with the supervisor's, in order.
    let keeper_ids: Vec<u64> = staged.keepers.iter().map(|h| h.id).collect();
    assert_eq!(keeper_ids, ids);
}

#[test]
fn extract_tcp_keeps_order_and_identity() {
    let snapshot = ConfigSnapshot {
        listeners: vec![
            TcpListen {
                listen: Listen { port: 80, host: "::1".to_string() },
                scale: 2,
                error_sleep_ms: 7,
                max_conn: 11,
                extra_cfg: Empty {},
            },
            TcpListen {
                listen: Listen { port: 443, host: "::".to_string() },
                scale: 1,
                error_sleep_ms: 100,
                max_conn: 1000,
                extra_cfg: Empty {},
            },
        ],
    };
    let ds = spirit::model::extract_tcp(&snapshot);
    assert_eq!(ds.len(), 2);
    assert_eq!(ds[0].sub.port, 80);
    assert_eq!(ds[0].sub.host, "::1".to_string());
    assert_eq!(ds[0].extra.error_sleep_ms, 7);
    assert_eq!(ds[0].extra.max_conn, 11);
    assert_eq!(ds[0].scale, 2);
    assert_eq!(ds[1].sub.port, 443);
    assert_eq!(ds[1].scale, 1);
}
