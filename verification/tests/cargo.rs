use omega_daemon::action::{authorize, brokered, captured, trim_end, CommandAnswer};
use omega_daemon::authorization::Grants;
use omega_daemon::cargo::{CargoConfig, Dependency, DependencySource, DependencySpec, REGISTRY};
use omega_daemon::refusal::{ErrorCode, Refusal};

#[test]
fn a_registry_dependency_is_a_bare_version_until_it_has_features() {
    assert_eq!(Dependency::registry("1", &[]), Dependency::Version("1".to_string()));
    match Dependency::registry("1", &["derive"]) {
        Dependency::Detailed(d) => {
            assert_eq!(d.version.as_deref(), Some("1"));
            assert_eq!(d.features, Some(vec!["derive".to_string()]));
        }
        other => panic!("{other:?}"),
    }
    let local = Dependency::local("../core", &[]);
    assert_eq!(local.path().map(String::as_str), Some("../core"));
    assert!(local.version().is_none());
    let git = Dependency::git("https://example.org/x", "v1", &[]);
    assert_eq!(git.repository().map(String::as_str), Some("https://example.org/x"));
    assert!(Dependency::inherited().is_inherited());
    assert!(!Dependency::registry("1", &[]).is_inherited());
}

#[test]
fn dependency_specs_carry_their_source_and_features() {
    let spec = DependencySpec::registry("serde", "1").with_features(&["derive"]);
    assert_eq!(spec.name, "serde");
    assert_eq!(spec.source, DependencySource::Registry("1"));
    assert_eq!(spec.features, &["derive"]);
    assert_eq!(DependencySpec::omega("omega-core").source, DependencySource::OmegaCrate);
    let (name, entry) = spec.inherited();
    assert_eq!(name, "serde");
    assert!(entry.is_inherited());
}

#[test]
fn linking_replaces_the_whole_registry_patch() {
    let mut config = CargoConfig {
        patch: vec![
            (REGISTRY.to_string(), vec![("old".to_string(), Dependency::local("../old", &[]))]),
            ("other".to_string(), vec![]),
        ],
        rest: vec![],
    };
    config.replace_patch(vec![("new".to_string(), Dependency::local("../new", &[]))]);
    let patched = config.patched().unwrap();
    assert_eq!(patched.len(), 1);
    assert_eq!(patched[0].0, "new");
    assert!(config.patch.iter().any(|(source, _)| source == "other"));
    config.replace_patch(vec![]);
    assert!(config.patched().is_none());
    assert!(!config.is_empty());
}

#[test]
fn an_action_that_costs_a_capability_needs_it() {
    let none = Grants::none();
    assert!(authorize("lock", None, &none).is_ok());
    let refusal = authorize("lock", Some((4, "session control")), &none).unwrap_err();
    assert_eq!(refusal.code, ErrorCode::PermissionDenied);
    assert_eq!(refusal.message, "lock requires session control");
}

#[test]
fn brokered_and_captured_actions_are_answered() {
    let refusal = brokered("suspend", None).unwrap_err();
    assert_eq!(refusal.code, ErrorCode::Unimplemented);
    assert_eq!(refusal.message, "suspend is not performed by this daemon");
    assert_eq!(brokered("lock", Some(Ok(()))).unwrap(), CommandAnswer::Acknowledged);
    let denied = Refusal::denied("no".to_string());
    assert_eq!(brokered("lock", Some(Err(denied.clone()))).unwrap_err(), denied);
    assert_eq!(captured(true, "0", b"out\n\n").unwrap(), CommandAnswer::Text("out".to_string()));
    let failed = captured(false, "exit status: 2", b"").unwrap_err();
    assert_eq!((failed.code, failed.message.as_str()), (ErrorCode::Unavailable, "command exited exit status: 2"));
}

#[test]
fn captured_output_loses_only_trailing_whitespace() {
    assert_eq!(trim_end("  a b \t\n"), "  a b");
    assert_eq!(trim_end("x\u{3000}\u{a0}\u{2028}"), "x");
    assert_eq!(trim_end("\n \n"), "");
    assert_eq!(trim_end("\u{200b}"), "\u{200b}");
    // Invalid bytes are replaced, not dropped; valid text is kept as is.
    assert_eq!(captured(true, "0", b"a\xffb ").unwrap(), CommandAnswer::Text("a\u{fffd}b".to_string()));
    assert_eq!(captured(true, "0", "é \n".as_bytes()).unwrap(), CommandAnswer::Text("é".to_string()));
}
