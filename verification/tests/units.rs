//! Unit tests of the validation results, the supervisor, the dispatcher,
//! the configuration store, the error formatting and the model helpers.

use spirit::dispatch::{Dispatcher, SignalAction};
use spirit::engine::{filter_path, FilterDecision, PathFilter};
use spirit::error::{error_log_lines, join_causes, ErrorLogFormat};
use spirit::model::{ConfigSnapshot, Listen, TcpListen};
use spirit::Empty;
use spirit::store::ConfigStore;
use spirit::supervisor::{Action, Event, Supervisor};
use spirit::validation::{Severity, ValidationResult, ValidationResults};

#[test]
fn merge_is_concatenation_in_order() {
    let mut a = ValidationResults::new();
    a.push(ValidationResult::warning("w1".to_string()));
    let mut b = ValidationResults::new();
    b.push(ValidationResult::error("e1".to_string()));
    b.push(ValidationResult::okay());
    a.merge(b);
    assert_eq!(a.len(), 3);
    assert_eq!(a.results[0].severity, Severity::Warning);
    assert_eq!(a.results[0].message, "w1".to_string());
    assert_eq!(a.results[1].severity, Severity::Error);
    assert_eq!(a.results[2].severity, Severity::Okay);
}

#[test]
fn committable_iff_no_error() {
    let mut rs = ValidationResults::new();
    assert!(rs.committable());
    rs.push(ValidationResult::warning("careful".to_string()));
    assert!(rs.committable());
    rs.push(ValidationResult::error("broken".to_string()));
    assert!(!rs.committable());
}

#[test]
fn supervisor_settled_job_confirms_once() {
    let mut sup = Supervisor::new();
    assert_eq!(sup.step(Event::Install { instance: 7 }), vec![Action::Start { instance: 7 }]);
    assert_eq!(sup.running(), 1);
    let actions = sup.step(Event::Settled { instance: 7, failed: false });
    assert_eq!(actions, vec![Action::Confirm { instance: 7 }]);
    assert_eq!(sup.running(), 0);
    // The instance is gone: a late stop request finds nothing to do.
    assert_eq!(sup.step(Event::StopRequest { instance: 7 }), vec![]);
}

#[test]
fn supervisor_failed_job_is_logged_and_confirmed() {
    let mut sup = Supervisor::new();
    sup.step(Event::Install { instance: 3 });
    let actions = sup.step(Event::Settled { instance: 3, failed: true });
    assert_eq!(
        actions,
        vec![Action::LogFailure { instance: 3 }, Action::Confirm { instance: 3 }]
    );
}

#[test]
fn supervisor_stop_request_cancels_then_confirms() {
    let mut sup = Supervisor::new();
    sup.step(Event::Install { instance: 1 });
    sup.step(Event::Install { instance: 2 });
    let actions = sup.step(Event::StopRequest { instance: 1 });
    assert_eq!(
        actions,
        vec![Action::Cancel { instance: 1 }, Action::Confirm { instance: 1 }]
    );
    assert_eq!(sup.running(), 1);
}

fn dispatcher() -> Dispatcher {
    // Reload on 1; terminate on 15, 2 and 3; hooks 0 and 2 on signal 10,
    // hook 1 on signal 12; termination hooks 3 then 4.
    Dispatcher::new(
        1,
        vec![15, 2, 3],
        vec![(10, 0), (12, 1), (10, 2)],
        vec![3, 4],
    )
}

#[test]
fn reload_signal_reloads_then_reinits_logging() {
    let mut d = dispatcher();
    let actions = d.handle_signal(1);
    assert_eq!(actions, vec![SignalAction::ReloadConfig, SignalAction::ReinitLogging]);
    assert!(!d.is_terminated());
}

#[test]
fn terminate_signal_runs_hooks_in_order_and_ends_loop() {
    let mut d = dispatcher();
    let actions = d.handle_signal(15);
    assert_eq!(
        actions,
        vec![
            SignalAction::RunTerminateHook { hook: 3 },
            SignalAction::RunTerminateHook { hook: 4 },
        ]
    );
    assert!(d.is_terminated());
}

#[test]
fn other_signal_runs_only_its_hooks() {
    let mut d = dispatcher();
    let actions = d.handle_signal(10);
    assert_eq!(
        actions,
        vec![SignalAction::RunHook { hook: 0 }, SignalAction::RunHook { hook: 2 }]
    );
    assert!(!d.is_terminated());
    assert_eq!(d.handle_signal(99), vec![]);
}

#[test]
fn signal_set_has_no_duplicates() {
    let d = Dispatcher::new(1, vec![15, 2, 3, 15], vec![(1, 0), (2, 1), (10, 2)], vec![]);
    let set = d.signal_set();
    assert_eq!(set, vec![1, 15, 2, 3, 10]);
}

#[test]
fn store_returns_the_last_stored_snapshot() {
    let mut store = ConfigStore::new(ConfigSnapshot { listeners: vec![] });
    assert_eq!(store.load().listeners.len(), 0);
    store.store(ConfigSnapshot {
        listeners: vec![TcpListen {
            listen: Listen { port: 7, host: "::".to_string() },
            scale: 1,
            error_sleep_ms: 100,
            max_conn: 1000,
            extra_cfg: Empty {},
        }],
    });
    let loaded = store.load();
    assert_eq!(loaded.listeners.len(), 1);
    assert_eq!(loaded.listeners[0].listen.port, 7);
}

#[test]
fn defaults_are_exact() {
    assert_eq!(spirit::model::default_host(), "::".to_string());
    assert_eq!(spirit::model::default_scale(), 1);
    assert_eq!(spirit::model::default_error_sleep(), 100);
    assert_eq!(spirit::model::default_max_conn(), 1000);
}

#[test]
fn desired_coerces_zero_scale() {
    let l = TcpListen {
        listen: Listen { port: 80, host: "::".to_string() },
        scale: 0,
        error_sleep_ms: 100,
        max_conn: 1000,
        extra_cfg: Empty {},
    };
    let d = l.desired();
    assert_eq!(d.scale, 1);
    assert_eq!(d.results.len(), 1);
    assert_eq!(d.results.results[0].severity, Severity::Warning);
    // The warning names the offending resource request.
    let subject = d.results.results[0].subject.as_ref().unwrap();
    assert_eq!(subject.port, 80);
    assert_eq!(subject.host, "::".to_string());
    let l2 = TcpListen { scale: 4, ..l };
    let d2 = l2.desired();
    assert_eq!(d2.scale, 4);
    assert_eq!(d2.results.len(), 0);
}

#[test]
fn extension_filter_matches_exactly() {
    let toml = "toml".to_string();
    assert!(filter_path(&PathFilter::Extension(toml.clone()), &"app.toml".to_string())
        == FilterDecision::Accept);
    assert!(filter_path(&PathFilter::Extension(toml.clone()), &"apptoml".to_string())
        == FilterDecision::Reject);
    assert!(filter_path(&PathFilter::Extension(toml.clone()), &"app.yaml".to_string())
        == FilterDecision::Reject);
    assert!(filter_path(&PathFilter::Extension(toml.clone()), &"toml".to_string())
        == FilterDecision::Reject);
    // A dotfile named nothing but ".toml" has no extension.
    assert!(filter_path(&PathFilter::Extension(toml.clone()), &".toml".to_string())
        == FilterDecision::Reject);
    assert!(filter_path(&PathFilter::Extension(toml.clone()), &"conf/.toml".to_string())
        == FilterDecision::Reject);
    assert!(filter_path(&PathFilter::Extension(toml.clone()), &"conf/a.toml".to_string())
        == FilterDecision::Accept);
    assert!(filter_path(&PathFilter::Extension(toml), &"a..toml".to_string())
        == FilterDecision::Accept);
    assert!(filter_path(&PathFilter::Any, &"anything".to_string()) == FilterDecision::Accept);
    assert!(filter_path(&PathFilter::Custom { hook: 9 }, &"x".to_string())
        == FilterDecision::Ask { hook: 9 });
}

#[test]
fn multi_line_format_logs_each_cause() {
    let causes = vec!["outer".to_string(), "inner".to_string()];
    let lines = error_log_lines(&causes, ErrorLogFormat::MultiLine, &"trace".to_string(), false);
    assert_eq!(lines, vec!["outer".to_string(), "inner".to_string()]);
    let with_bt = error_log_lines(&causes, ErrorLogFormat::MultiLine, &"trace".to_string(), true);
    assert_eq!(
        with_bt,
        vec!["outer".to_string(), "inner".to_string(), "trace".to_string()]
    );
}

#[test]
fn single_line_format_joins_with_semicolons() {
    let causes = vec!["a".to_string(), "b".to_string(), "c".to_string()];
    assert_eq!(join_causes(&causes), "a; b; c".to_string());
    let lines = error_log_lines(&causes, ErrorLogFormat::SingleLine, &"".to_string(), true);
    assert_eq!(lines, vec!["a; b; c".to_string()]);
    let no_bt = error_log_lines(
        &causes,
        ErrorLogFormat::SingleLineWithoutBacktrace,
        &"trace".to_string(),
        true,
    );
    assert_eq!(no_bt, vec!["a; b; c".to_string()]);
}

#[test]
fn similar_listeners_share_identity_only() {
    let a = TcpListen {
        listen: Listen { port: 80, host: "::".to_string() },
        scale: 2,
        error_sleep_ms: 100,
        max_conn: 1000,
        extra_cfg: Empty {},
    };
    let b = TcpListen { scale: 9, error_sleep_ms: 7, max_conn: 1, ..a.clone() };
    assert!(a.is_similar(&b));
    let c = TcpListen { listen: Listen { port: 81, host: "::".to_string() }, ..a.clone() };
    assert!(!a.is_similar(&c));
    let sa = spirit::model::HyperServer::new(a);
    let sb = spirit::model::HyperServer::new(b);
    assert!(sa.is_similar(&sb));
    assert_eq!(sa.desired().scale, 2);
}

#[test]
fn task_builder_assembles_the_plugin_surface() {
    let task = spirit::model::Task::new()
        .with_extract("extract")
        .with_build("build")
        .with_to_task("to_task")
        .with_name("name");
    assert_eq!(task.extract, "extract");
    assert_eq!(task.build, "build");
    assert_eq!(task.to_task, "to_task");
    assert_eq!(task.name, "name");
    let server = spirit::model::HyperServer::new(task);
    assert_eq!(server.transport().name, "name");
}
