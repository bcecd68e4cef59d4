use omega_daemon::manifest::{CommandEndpoint, ManifestStore, PluginManifest, ValueShape};
use omega_daemon::hosts::calls::Pool;
use omega_daemon::plugins::commands::{check_answer, joined_ids, session_answer, AnswerShape, Route};
use omega_daemon::plugins::session::{RequestError, Slot};
use omega_daemon::plugins::PluginRegistry;
use omega_daemon::refusal::ErrorCode;

fn manifest(name: &str, command: &str, signature: &[u8]) -> PluginManifest {
    PluginManifest {
        name: name.to_string(),
        hash: format!("hash-{name}"),
        commands: vec![CommandEndpoint {
            id: command.to_string(),
            signature: signature.to_vec(),
            input: Some(ValueShape::Unit),
            output: Some(ValueShape::Typed),
        }],
        executable: false,
    }
}

fn call(registry: &PluginRegistry, signature: &[u8]) -> Result<Route, omega_daemon::refusal::Refusal> {
    registry.invoke_command("get", Ok(()), "target", signature, 0, None, &vec![])
}

#[test]
fn dispatch_uses_the_connected_contract_until_a_new_session_replaces_it() {
    let mut registry = PluginRegistry::new();
    registry.replace_build(&ManifestStore::from_manifests(vec![manifest("target", "get", b"text")]), None);
    registry.connected("target", 1);
    registry.replace_build(&ManifestStore::from_manifests(vec![manifest("target", "get", b"bool")]), None);
    // The session was admitted under the old contract, and keeps it.
    match call(&registry, b"text").unwrap() {
        Route::Session { plugin, session, endpoint, check_argument } => {
            assert_eq!((plugin.as_str(), session), ("target", 1));
            assert_eq!(endpoint.signature, b"text".to_vec());
            assert!(!check_argument);
        }
        other => panic!("routed to {other:?}"),
    }
    registry.connected("target", 2);
    let refusal = call(&registry, b"text").unwrap_err();
    assert_eq!(refusal.code, ErrorCode::FailedPrecondition);
    assert_eq!(refusal.message, "incompatible command target/get");
    assert!(matches!(call(&registry, b"bool").unwrap(), Route::Session { session: 2, .. }));
}

#[test]
fn a_command_needs_exactly_one_provider() {
    let mut registry = PluginRegistry::new();
    let refusal = registry.resolve_command("get", "").unwrap_err();
    assert_eq!(refusal.code, ErrorCode::InvalidArgument);
    assert_eq!(refusal.message, "no provider declares command get");
    registry.replace_build(
        &ManifestStore::from_manifests(vec![manifest("a", "get", b"s"), manifest("b", "get", b"s"), manifest("c", "put", b"s")]),
        None,
    );
    let refusal = registry.resolve_command("get", "").unwrap_err();
    assert_eq!(refusal.code, ErrorCode::FailedPrecondition);
    assert_eq!(refusal.message, "multiple providers for get");
    assert_eq!(registry.resolve_command("put", "").unwrap(), "c");
    assert_eq!(registry.resolve_command("put", "c").unwrap(), "c");
    assert_eq!(
        registry.resolve_command("put", "a").unwrap_err().message,
        "command provider does not match requested host"
    );
}

#[test]
fn an_unconnected_provider_and_a_malformed_call_are_refused() {
    let mut registry = PluginRegistry::new();
    registry.replace_build(&ManifestStore::from_manifests(vec![manifest("target", "get", b"s")]), None);
    let refusal = call(&registry, b"").unwrap_err();
    assert_eq!(refusal.code, ErrorCode::Unavailable);
    assert_eq!(refusal.message, "target is not connected");
    let malformed = registry.invoke_command("get", Err("bad name".to_string()), "", b"", 0, None, &vec![]).unwrap_err();
    assert_eq!((malformed.code, malformed.message.as_str()), (ErrorCode::InvalidArgument, "bad name"));
    // A typed call with an argument where the contract takes none.
    registry.connected("target", 1);
    let refusal = registry.invoke_command("get", Ok(()), "", b"s", 1, None, &vec![]).unwrap_err();
    assert_eq!(refusal.message, "command expects no arguments");
}

#[test]
fn a_configured_command_host_takes_the_call_under_the_build() {
    let mut registry = PluginRegistry::new();
    registry.replace_build(&ManifestStore::from_manifests(vec![manifest("tool", "run", b"sig")]), None);
    match registry.invoke_command("run", Ok(()), "", b"", 0, None, &vec!["tool".to_string()]).unwrap() {
        Route::Host { plugin, signature, typed } => {
            assert_eq!(plugin, "tool");
            assert_eq!(signature, b"sig".to_vec());
            assert!(!typed);
        }
        other => panic!("routed to {other:?}"),
    }
    let refusal = registry.invoke_command("run", Ok(()), "", b"other", 0, None, &vec!["tool".to_string()]).unwrap_err();
    assert_eq!(refusal.message, "command signature mismatch");
}

#[test]
fn malformed_results_are_rejected_against_the_admitted_contract() {
    // A text result where the contract promises a boolean.
    let refusal = check_answer(Some(ValueShape::Typed), AnswerShape::Value { fits: false }, "target", "get").unwrap_err();
    assert_eq!(refusal.code, ErrorCode::FailedPrecondition);
    assert_eq!(refusal.message, "malformed result from target/get");
    assert!(check_answer(Some(ValueShape::Typed), AnswerShape::Value { fits: true }, "target", "get").is_ok());
    assert_eq!(
        check_answer(Some(ValueShape::Typed), AnswerShape::Acknowledged, "target", "get").unwrap_err().message,
        "command returned no value"
    );
    assert!(check_answer(None, AnswerShape::Acknowledged, "target", "get").is_ok());
    assert!(check_answer(Some(ValueShape::Unit), AnswerShape::Acknowledged, "target", "get").is_ok());
    // The same, end to end: the call is routed to the session under the
    // connected contract, and the session's answer is held to it.
    let mut registry = PluginRegistry::new();
    registry.replace_build(&ManifestStore::from_manifests(vec![manifest("target", "get", b"text")]), None);
    registry.connected("target", 1);
    let endpoint = match call(&registry, b"text").unwrap() {
        Route::Session { endpoint, .. } => endpoint,
        other => panic!("routed to {other:?}"),
    };
    let refusal = session_answer(&endpoint, "target", Ok(AnswerShape::Value { fits: false })).unwrap_err();
    assert_eq!(refusal.code, ErrorCode::FailedPrecondition);
    assert_eq!(refusal.message, "malformed result from target/get");
    assert_eq!(session_answer(&endpoint, "target", Ok(AnswerShape::Value { fits: true })), Ok(AnswerShape::Value { fits: true }));
    let gone = session_answer(&endpoint, "target", Err(RequestError::Absent("target".to_string()))).unwrap_err();
    assert_eq!((gone.code, gone.message.as_str()), (ErrorCode::Unavailable, "target is not connected"));
}

#[test]
fn outbound_requests_share_a_byte_budget_across_plugins() {
    let request_bytes: usize = 8 * 1024 * 1024;
    let frame: usize = 16 * 1024 * 1024;
    let mut budget = Pool::new(request_bytes);
    let size = 3 * 1024 * 1024;
    // first and second are each admitted and hold their bytes.
    for plugin in ["first", "second"] {
        RequestError::admission(plugin, size, frame, budget.free(), Slot::Ready).unwrap();
        assert!(budget.take(size));
    }
    assert!(matches!(
        RequestError::admission("first", size, frame, budget.free(), Slot::Ready),
        Err(RequestError::Full(_))
    ));
    budget.give(size);
    budget.give(size);
    assert_eq!(budget.free(), request_bytes);
    assert!(matches!(
        RequestError::admission("first", frame, frame, budget.free(), Slot::Ready),
        Err(RequestError::TooLarge(_))
    ));
    assert!(matches!(RequestError::admission("gone", 1, frame, budget.free(), Slot::Closed), Err(RequestError::Absent(_))));
    assert_eq!(RequestError::Absent("gone".to_string()).describe(), "gone is not connected");
}

#[test]
fn the_commands_a_plugin_declares_are_listed_by_id() {
    let mut listed = manifest("target", "get", b"s");
    listed.commands.push(CommandEndpoint { id: "put".to_string(), signature: b"s".to_vec(), input: None, output: None });
    assert_eq!(joined_ids(&listed.commands), "get, put");
    assert_eq!(joined_ids(&vec![]), "");
}
