use omega_daemon::manifest::ManifestStore;
use omega_daemon::plugins::instance::{config_bytes, Instance, Shown, Visibility};
use omega_daemon::plugins::{Lifecycle, PluginPhase, PluginRegistry, PluginToken, TokenError, Transition};

#[test]
fn randomness_failure_never_produces_a_token() {
    assert!(PluginToken::generate(Err(TokenError(getrandom::Error::UNSUPPORTED))).is_err());
    let token = PluginToken::generate(Ok([0xab; 16])).unwrap();
    assert_eq!(token.as_str(), "ab".repeat(16));
}

#[test]
fn a_token_spells_its_bytes_in_lowercase_hex() {
    let mut bytes = [0u8; 16];
    for (i, b) in bytes.iter_mut().enumerate() {
        *b = (i as u8) * 17;
    }
    let token = PluginToken::generate(Ok(bytes)).unwrap();
    assert_eq!(token.as_str(), "00112233445566778899aabbccddeeff");
    let minted = PluginToken::mint().unwrap();
    assert_eq!(minted.as_str().len(), 32);
    assert!(minted.as_str().chars().all(|c| c.is_ascii_hexdigit() && !c.is_ascii_uppercase()));
}

#[test]
fn a_stopped_plugin_stays_stopped_until_it_is_spawned() {
    let mut lifecycle = Lifecycle::new();
    assert_eq!(lifecycle.phase(false), PluginPhase::Unspecified);
    assert!(lifecycle.apply(Transition::Spawned));
    assert_eq!(lifecycle.phase(true), PluginPhase::Starting);
    assert!(lifecycle.connected());
    assert_eq!(lifecycle.phase(false), PluginPhase::Starting);
    assert_eq!(lifecycle.phase(true), PluginPhase::Running);
    assert!(lifecycle.apply(Transition::Stopped));
    assert!(lifecycle.is_stopped());
    assert!(!lifecycle.apply(Transition::Exited { code: 3, detail: "crashed".to_string() }));
    assert!(!lifecycle.apply(Transition::Unspawnable("missing".to_string())));
    assert!(lifecycle.is_stopped());
    assert!(lifecycle.apply(Transition::Spawned));
    assert_eq!(lifecycle, Lifecycle::Starting);
}

#[test]
fn exits_and_spawn_failures_carry_their_detail_and_code() {
    let mut lifecycle = Lifecycle::new();
    lifecycle.apply(Transition::Spawned);
    lifecycle.apply(Transition::Exited { code: 3, detail: "crashed".to_string() });
    assert_eq!(lifecycle.phase(true), PluginPhase::Restarting);
    assert_eq!(lifecycle.exit_code(), 3);
    assert_eq!(lifecycle.detail(), "crashed");
    lifecycle.apply(Transition::Unspawnable("no such file".to_string()));
    assert_eq!(lifecycle.phase(true), PluginPhase::Failed);
    assert_eq!(lifecycle.exit_code(), -1);
    assert_eq!(lifecycle.detail(), "no such file");
    // Applying the same exit twice reports no movement the second time.
    let mut again = Lifecycle::new();
    assert!(again.apply(Transition::Exited { code: 1, detail: "x".to_string() }));
    assert!(!again.apply(Transition::Exited { code: 1, detail: "x".to_string() }));
    assert!(!Lifecycle::new().connected());
}

#[test]
fn the_registry_follows_transitions_and_sessions() {
    let mut registry = PluginRegistry::new();
    assert!(registry.lifecycle("wifi").is_none());
    assert!(registry.transition("wifi", Transition::Spawned));
    assert_eq!(registry.lifecycle("wifi"), Some(Lifecycle::Starting));
    assert!(!registry.is_connected("wifi"));
    registry.connected("wifi", 7);
    assert!(registry.is_connected("wifi"));
    assert_eq!(registry.session("wifi"), Some(7));
    // A stale session going away changes nothing.
    assert!(!registry.disconnected("wifi", 6));
    assert_eq!(registry.session("wifi"), Some(7));
    assert!(registry.disconnected("wifi", 7));
    assert_eq!(registry.session("wifi"), None);
    assert_eq!(registry.len(), 1);
    assert_eq!(registry.record_at(0).name, "wifi");
}

#[test]
fn a_replaced_session_is_retired() {
    let mut registry = PluginRegistry::new();
    registry.connected("clock", 1);
    registry.connected("clock", 2);
    let retired = registry.take_retired();
    assert_eq!(retired.len(), 1);
    assert_eq!((retired[0].plugin.as_str(), retired[0].session), ("clock", 1));
    assert!(registry.take_retired().is_empty());
}

#[test]
fn a_spawned_process_identifies_by_its_pid_and_token() {
    let mut registry = PluginRegistry::new();
    let token = registry.issue("wifi").unwrap();
    assert_eq!(registry.identify(42, token.as_str()), Some("wifi".to_string()));
    // The first process to present the token owns it.
    assert_eq!(registry.identify(43, token.as_str()), None);
    assert_eq!(registry.identify(42, ""), None);
    assert_eq!(registry.identify(42, "unknown"), None);
}

#[test]
fn an_instance_starts_hidden_with_fresh_identities() {
    let window = Instance::new("main".to_string(), vec![1, 2], Shown::Window, None).unwrap();
    assert!(window.id.starts_with("instance-"));
    assert_eq!(window.id.len(), "instance-".len() + 32);
    assert!(window.incarnation.starts_with("incarnation-"));
    assert_eq!(window.requested, Visibility::Visible);
    assert_eq!(window.observed, Visibility::Hidden);
    assert_eq!((window.epoch, window.ready), (0, false));
    assert_eq!(window.timeout_ms(), None);

    let popup = Instance::new("menu".to_string(), vec![], Shown::Popup, Some("only".to_string())).unwrap();
    assert_eq!(popup.requested, Visibility::Hidden);
    assert_ne!(popup.id, window.id);

    let overlay = Instance::new("osd".to_string(), vec![], Shown::Overlay(1500), None).unwrap();
    assert_eq!(overlay.timeout_ms(), Some(1500));
    let untimed = Instance::new("osd".to_string(), vec![], Shown::Overlay(0), None).unwrap();
    assert_eq!(untimed.timeout_ms(), None);
}

#[test]
fn settings_are_accounted_with_an_overhead_per_entry() {
    assert_eq!(config_bytes(&vec![]), 0);
    assert_eq!(config_bytes(&vec![(5, 10), (1, 0)]), 5 + 10 + 32 + 1 + 32);
}

fn manifest(name: &str) -> omega_daemon::manifest::PluginManifest {
    omega_daemon::manifest::PluginManifest {
        name: name.to_string(),
        hash: format!("hash-{name}"),
        commands: vec![],
        executable: false,
    }
}

#[test]
fn a_new_build_replaces_manifests_and_drops_what_nothing_holds() {
    let mut registry = PluginRegistry::new();
    let first = ManifestStore::from_manifests(vec![manifest("clock"), manifest("wifi")]);
    registry.replace_build(&first, Some(&vec![("wifi".to_string(), b"ssid=home".to_vec())]));
    assert_eq!(registry.built(), vec!["clock".to_string(), "wifi".to_string()]);
    assert_eq!(registry.config("wifi"), b"ssid=home".to_vec());
    assert!(registry.config("clock").is_empty());
    registry.connected("old", 1);
    let second = ManifestStore::from_manifests(vec![manifest("wifi")]);
    registry.replace_build(&second, None);
    // clock is gone; old stays while it is connected, without a manifest.
    assert!(registry.record_named("clock").is_none());
    assert!(registry.record_named("old").is_some());
    assert!(registry.manifest("old").is_none());
    assert_eq!(registry.built(), vec!["wifi".to_string()]);
    // Settings not given with a build are kept.
    assert_eq!(registry.config("wifi"), b"ssid=home".to_vec());
}

#[test]
fn a_randomness_failure_says_no_identity_could_be_made() {
    let error = PluginToken::generate(Err(TokenError(getrandom::Error::UNSUPPORTED))).unwrap_err();
    assert!(error.message().starts_with("cannot generate a secure plugin identity: "));
    assert!(error.message().len() > "cannot generate a secure plugin identity: ".len());
}

#[test]
fn a_plugin_that_never_ran_has_no_exit_code() {
    assert_eq!(Lifecycle::new().exit_code(), -1);
}
