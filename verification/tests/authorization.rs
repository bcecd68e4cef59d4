use omega_daemon::authorization::{GrantedCommand, GrantedStorage, GrantedSurface, Grants};
use omega_daemon::refusal::ErrorCode;

fn grants() -> Grants {
    Grants::of(
        "wifi",
        vec![3, 7],
        vec![GrantedSurface { id: "panel".to_string(), kind: 2 }],
        vec![
            GrantedStorage { id: "cache".to_string(), writable: false },
            GrantedStorage { id: "state".to_string(), writable: true },
        ],
        &vec![("scan".to_string(), b"v1".to_vec())],
        vec![GrantedCommand { plugin: "clock".to_string(), command: "now".to_string(), signature: b"v2".to_vec() }],
    )
}

#[test]
fn a_peer_calls_only_the_commands_it_declared_with_their_signatures() {
    let grants = grants();
    assert!(grants.command("wifi", "scan", b"v1").is_ok());
    assert!(grants.command("clock", "now", b"v2").is_ok());
    let incompatible = grants.command("clock", "now", b"v3").unwrap_err();
    assert_eq!(incompatible.code, ErrorCode::FailedPrecondition);
    assert_eq!(incompatible.message, "incompatible command clock/now");
    let undeclared = grants.command("clock", "set", b"v2").unwrap_err();
    assert_eq!(undeclared.code, ErrorCode::PermissionDenied);
    assert_eq!(undeclared.message, "command access not declared for clock/set");
    assert!(grants.command_access("wifi", "scan").is_ok());
    assert!(grants.command_id_access("now").is_ok());
    assert_eq!(grants.command_id_access("set").unwrap_err().message, "command access not declared for set");
}

#[test]
fn storage_is_read_where_declared_and_written_where_writable() {
    let grants = grants();
    assert!(grants.storage("cache", false).is_ok());
    let refusal = grants.storage("cache", true).unwrap_err();
    assert_eq!(refusal.code, ErrorCode::PermissionDenied);
    assert_eq!(refusal.message, "storage access not declared for cache");
    assert!(grants.storage("state", true).is_ok());
    assert!(grants.storage("other", false).is_err());
}

#[test]
fn capabilities_and_surfaces_are_as_declared() {
    let grants = grants();
    assert!(grants.holds(7));
    assert!(!grants.holds(4));
    assert_eq!(grants.wire(), vec![3, 7]);
    assert_eq!(grants.surface("panel"), Some(2));
    assert_eq!(grants.surface("other"), None);
    let none = Grants::none();
    assert!(none.command("wifi", "scan", b"v1").is_err());
    assert!(!none.holds(3));
}
