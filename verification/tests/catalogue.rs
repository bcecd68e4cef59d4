use omega_daemon::authorization::{GrantedCommand, Grants};
use omega_daemon::hosts::invocations::{Completion, ExecutionPhase, ExecutionSnapshot, Invocations};
use omega_daemon::hosts::startup::CommandHostPhase;
use omega_daemon::hosts::status::HostStatus;
use omega_daemon::manifest::{CommandEndpoint, ManifestStore, PluginManifest, ValueShape};
use omega_daemon::plugins::PluginRegistry;
use omega_daemon::refusal::{ErrorCode, Refusal};

fn endpoint(id: &str) -> CommandEndpoint {
    CommandEndpoint { id: id.to_string(), signature: b"sig".to_vec(), input: Some(ValueShape::Unit), output: Some(ValueShape::Unit) }
}

fn failure(id: u64, command: &str) -> ExecutionSnapshot {
    ExecutionSnapshot {
        invocation_id: id,
        command: command.to_string(),
        process_id: 0,
        phase: ExecutionPhase::Finished,
        queue_ms: 0,
        execution_ms: 0,
        outcome: Some(Completion::Refused(ErrorCode::Unavailable)),
    }
}

fn status(id: &str, failures: Vec<ExecutionSnapshot>) -> HostStatus {
    HostStatus {
        id: id.to_string(),
        lifetime: "one-shot",
        phase: CommandHostPhase::Failed,
        eager: false,
        retry_after_ms: None,
        startup_error: "no such file".to_string(),
        processes: vec![],
        concurrency: 1,
        queue_capacity: 0,
        queued_calls: 0,
        active_calls: 0,
        recent_failures: failures,
    }
}

fn registry() -> PluginRegistry {
    let mut registry = PluginRegistry::new();
    let worker = PluginManifest {
        name: "worker".to_string(),
        hash: "hash-worker".to_string(),
        commands: vec![endpoint("test.run"), endpoint("test.private")],
        executable: true,
    };
    registry.replace_build(&ManifestStore::from_manifests(vec![worker]), None);
    registry
}

fn hosts() -> Vec<HostStatus> {
    vec![status("worker", vec![failure(1, "test.run"), failure(2, "test.private")]), status("other", vec![failure(3, "x")])]
}

#[test]
fn catalogue_failure_history_respects_the_callers_command_grants() {
    let registry = registry();
    let configured = vec!["worker".to_string()];
    let open = registry.command_catalogue(None, &configured, Ok(()), hosts(), &Invocations::new(), 0).unwrap();
    assert_eq!(open.entries.len(), 2);
    assert_eq!(open.hosts.len(), 2);
    assert_eq!(open.hosts[0].recent_failures.len(), 2);

    let dependency = GrantedCommand { plugin: "worker".to_string(), command: "test.run".to_string(), signature: b"sig".to_vec() };
    let grants = Grants::of("caller", vec![], vec![], vec![], &vec![], vec![dependency]);
    let catalogue = registry.command_catalogue(Some(&grants), &configured, Ok(()), hosts(), &Invocations::new(), 0).unwrap();
    assert_eq!(catalogue.entries.len(), 1);
    assert_eq!(catalogue.entries[0].endpoint.id, "test.run");
    assert!(catalogue.entries[0].available);
    // The host that offers the caller nothing is not shown at all.
    assert_eq!(catalogue.hosts.len(), 1);
    assert_eq!(catalogue.hosts[0].id, "worker");
    assert_eq!(catalogue.hosts[0].recent_failures.len(), 1);
    assert_eq!(catalogue.hosts[0].recent_failures[0].command, "test.run");
    assert_eq!(catalogue.hosts[0].startup_error, "no such file");
}

#[test]
fn the_catalogue_is_in_address_order() {
    let registry = registry();
    let catalogue = registry.command_catalogue(None, &vec![], Ok(()), vec![], &Invocations::new(), 0).unwrap();
    let ids: Vec<&str> = catalogue.entries.iter().map(|e| e.endpoint.id.as_str()).collect();
    assert_eq!(ids, vec!["test.private", "test.run"]);
    assert!(!catalogue.entries[0].available);
}

#[test]
fn a_command_id_that_does_not_validate_refuses_the_whole_catalogue() {
    let registry = registry();
    let invalid = Refusal::invalid("invalid command id".to_string());
    let refusal = registry.command_catalogue(None, &vec![], Err(invalid), hosts(), &Invocations::new(), 0).unwrap_err();
    assert_eq!((refusal.code, refusal.message.as_str()), (ErrorCode::InvalidArgument, "invalid command id"));
}

#[test]
fn each_entry_carries_the_executions_of_its_command() {
    let registry = registry();
    let mut invocations = Invocations::new();
    let first = invocations.record("worker".to_string(), "test.run".to_string(), 10).unwrap();
    invocations.record("worker".to_string(), "test.private".to_string(), 11).unwrap();
    invocations.record("other".to_string(), "test.run".to_string(), 12).unwrap();
    let catalogue = registry.command_catalogue(None, &vec![], Ok(()), vec![], &invocations, 20).unwrap();
    let run = catalogue.entries.iter().find(|e| e.endpoint.id == "test.run").unwrap();
    assert_eq!(run.executions.len(), 1);
    assert_eq!(run.executions[0].invocation_id, first);
    assert_eq!(run.executions[0].phase, ExecutionPhase::Queued);
    assert_eq!(run.executions[0].queue_ms, 0);
    let private = catalogue.entries.iter().find(|e| e.endpoint.id == "test.private").unwrap();
    assert_eq!(private.executions.len(), 1);
}
