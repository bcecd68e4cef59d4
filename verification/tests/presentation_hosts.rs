use omega_daemon::attachment::PresentationKind;
use omega_daemon::presentations::{desired_units, Hosts, RestartDelay, FIRST_RESTART_MS, HEALTHY_RUN_NS, LONGEST_RESTART_MS};

fn names(list: &[&str]) -> Vec<String> {
    list.iter().map(|name| name.to_string()).collect()
}

#[test]
fn only_windows_and_overlays_need_a_standalone_host() {
    let views = vec![
        ("wifi".to_string(), PresentationKind::Embedded),
        ("clock".to_string(), PresentationKind::Window),
        ("audio".to_string(), PresentationKind::Overlay),
        ("clock".to_string(), PresentationKind::Overlay),
        ("menu".to_string(), PresentationKind::Popup),
    ];
    assert_eq!(desired_units(&views), names(&["audio", "clock"]));
    assert!(desired_units(&vec![]).is_empty());
}

#[test]
fn a_round_stops_what_no_view_asks_for_and_starts_what_is_missing() {
    let mut hosts = Hosts::new();
    let desired = names(&["clock", "wifi"]);
    assert!(hosts.retire(&desired).is_empty());
    // Nothing starts before the renderer is installed.
    assert!(hosts.needs_install(&desired));
    assert!(hosts.launch(&desired).is_empty());
    hosts.install_succeeded();
    assert!(!hosts.needs_install(&desired));
    assert_eq!(hosts.launch(&desired), names(&["clock", "wifi"]));
    // The next round keeps what runs and asks for nothing new.
    assert!(hosts.launch(&desired).is_empty());
    let next = names(&["wifi", "audio"]);
    assert_eq!(hosts.retire(&next), names(&["clock"]));
    assert_eq!(hosts.launch(&next), names(&["audio"]));
    // With no views left every host stops, and no install is needed.
    let mut stopped = hosts.retire(&vec![]);
    stopped.sort();
    assert_eq!(stopped, names(&["audio", "wifi"]));
    assert!(!hosts.needs_install(&vec![]));
}

#[test]
fn restarts_back_off_to_thirty_seconds_and_start_over_after_a_long_run() {
    let mut delay = RestartDelay::new();
    assert_eq!(delay.after_exit(10), 250);
    assert_eq!(delay.after_exit(10), 500);
    assert_eq!(delay.after_exit(10), 1_000);
    for _ in 0..10 {
        delay.after_exit(10);
    }
    assert_eq!(delay.after_exit(10), LONGEST_RESTART_MS);
    // A host that stayed up longer than thirty seconds waits the least.
    assert_eq!(delay.after_exit(HEALTHY_RUN_NS + 1), FIRST_RESTART_MS);
    assert_eq!(delay.after_exit(HEALTHY_RUN_NS), 500);
}
