//! The stop-request / stop-confirm handshake over real channels.

use futures::Future;

use spirit::engine::Spirit;
use spirit::model::{ConfigSnapshot, Listen, TcpListen};
use spirit::Empty;
use spirit::reconcile::{ResourceHandle, ResourcePlugin};

struct OnePortPlugin;

impl ResourcePlugin for OnePortPlugin {
    fn extract(&mut self, snapshot: &ConfigSnapshot) -> Vec<spirit::model::Desired> {
        spirit::model::extract_tcp(snapshot)
    }

    fn build(&mut self, _sub: &Listen) -> Result<ResourceHandle, String> {
        Ok(ResourceHandle { id: 1 })
    }
}

#[test]
fn retire_sends_stop_request_and_waits_for_confirm() {
    let snap = ConfigSnapshot {
        listeners: vec![TcpListen {
            listen: Listen { port: 4000, host: "::".to_string() },
            scale: 1,
            error_sleep_ms: 100,
            max_conn: 1000,
            extra_cfg: Empty {},
        }],
    };
    let (mut spirit, first) = Spirit::<OnePortPlugin>::new(1, vec![15])
        .add_group(OnePortPlugin, "tcp".to_string())
        .build(snap)
        .unwrap();
    let install = first.installs.into_iter().next().unwrap();
    let report = spirit.reload(ConfigSnapshot { listeners: vec![] });
    let handle = report.retired.into_iter().next().unwrap();
    assert_eq!(handle.id, install.instance);
    let spirit::reconcile::Install { stop_request, stop_confirm, .. } = install;
    // The supervisor side confirms; retiring then completes, and the stop
    // request is found delivered on the supervisor's receiver.
    stop_confirm.send(()).unwrap();
    spirit::handshake::retire(handle);
    assert!(stop_request.wait().is_ok());
}
