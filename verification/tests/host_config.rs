use omega_daemon::hosts::config::{configure, ExecutionPolicy, HostConfig, HostPolicy, RunningHost};
use omega_daemon::hosts::startup::{Lifetime, StartPolicy};
use omega_daemon::manifest::{ManifestStore, PluginManifest};
use omega_daemon::refusal::ErrorCode;

fn policy(id: &str) -> HostPolicy {
    HostPolicy {
        id: id.to_string(),
        lifetime: Lifetime::Persistent(StartPolicy::OnDemand),
        execution: ExecutionPolicy {
            concurrency: 1,
            queue_capacity: 4,
            queue_timeout: 1_000,
            startup_timeout: 2_000,
            execution_timeout: 3_000,
        },
    }
}

fn config(id: &str, plugin: &str, settings: &[u8]) -> HostConfig {
    HostConfig { policy: Ok(policy(id)), name: Ok(plugin.to_string()), settings: settings.to_vec() }
}

fn store() -> ManifestStore {
    ManifestStore::from_manifests(vec![
        PluginManifest { name: "tool".to_string(), hash: "h".to_string(), commands: vec![], executable: true },
        PluginManifest { name: "widget".to_string(), hash: "h".to_string(), commands: vec![], executable: false },
    ])
}

#[test]
fn an_unchanged_host_carries_on_and_a_changed_one_starts_afresh() {
    let running = vec![
        RunningHost { policy: policy("a"), settings: b"s".to_vec(), generation: 1 },
        RunningHost { policy: policy("b"), settings: b"s".to_vec(), generation: 1 },
        RunningHost { policy: policy("gone"), settings: b"s".to_vec(), generation: 1 },
    ];
    let configs = vec![config("a", "tool", b"s"), config("b", "tool", b"changed"), config("c", "tool", b"")];
    let result = configure(true, &running, &configs, &store(), 1).unwrap();
    let kept: Vec<(&str, bool)> = result.hosts.iter().map(|h| (h.policy.id.as_str(), h.kept)).collect();
    assert_eq!(kept, vec![("a", true), ("b", false), ("c", false)]);
    assert_eq!(result.retired, vec!["b".to_string(), "gone".to_string()]);
    // A new build starts every host afresh.
    let rebuilt = configure(true, &running, &configs, &store(), 2).unwrap();
    assert!(rebuilt.hosts.iter().all(|h| !h.kept));
}

#[test]
fn unacceptable_configurations_are_refused_at_the_first_bad_entry() {
    let refusal = configure(false, &vec![], &vec![], &store(), 1).unwrap_err();
    assert_eq!(refusal.code, ErrorCode::FailedPrecondition);
    assert_eq!(refusal.message, "command process environment is not initialized");
    let duplicate = configure(true, &vec![], &vec![config("a", "tool", b""), config("a", "tool", b"")], &store(), 1);
    assert_eq!(duplicate.unwrap_err().message, "duplicate command host configuration");
    let unknown = configure(true, &vec![], &vec![config("a", "nothing", b"")], &store(), 1);
    assert_eq!(unknown.unwrap_err().message, "unknown command host");
    let widget = configure(true, &vec![], &vec![config("a", "widget", b""), config("a", "nothing", b"")], &store(), 1);
    let refusal = widget.unwrap_err();
    assert_eq!(refusal.code, ErrorCode::InvalidArgument);
    assert_eq!(refusal.message, "command host is not a command executable");
    let malformed = HostConfig { policy: Err("concurrency must be positive".to_string()), name: Ok("tool".to_string()), settings: vec![] };
    assert_eq!(configure(true, &vec![], &vec![malformed], &store(), 1).unwrap_err().message, "concurrency must be positive");
}
