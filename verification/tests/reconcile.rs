use omega_daemon::reconcile::config::ConfigProvider;
use omega_daemon::reconcile::converger::{
    activation_blocked, adopt, descriptor_changed, Adopt, Passes, Published, Queue, Reload, Work,
};
use omega_daemon::reconcile::descriptor::{check_descriptor, DescriptorEntry};
use omega_daemon::reconcile::deployment::{Deployment, ReconciliationState, ShellApplicationState};
use omega_daemon::reconcile::environment::{EnvironmentProvider, Variable};
use omega_daemon::reconcile::presentations::{DesiredInstance, InstalledInstance, PresentationProvider, SurfaceRef};
use omega_daemon::reconcile::schedules::{DeclaredSchedule, RunningSchedule, ScheduleChange, ScheduleProvider};
use omega_daemon::reconcile::supervised::{Declared, UnitChange, UnitProvider};
use omega_daemon::reconcile::Action;

#[test]
fn triggers_that_arrive_together_are_one_pass() {
    let mut queue = Queue::new();

    queue.push(Work::converge());
    queue.push(Work::converge());
    queue.push(Work::converge());

    assert_eq!(queue.take(), Some(Work::converge()));
    assert_eq!(queue.take(), None, "one pass answers them all");
}

#[test]
fn a_rebuild_upgrades_a_pending_pass() {
    let mut queue = Queue::new();

    // A unit connected, and then a build landed before the pass ran: the
    // pass has to re-read the build, not plan against the old one.
    queue.push(Work::converge());
    queue.push(Work::rebuild());
    assert_eq!(queue.take(), Some(Work::rebuild()));

    // ...and the other way round: a plain convergence does not downgrade a
    // pending rebuild.
    queue.push(Work::rebuild());
    queue.push(Work::converge());
    assert_eq!(queue.take(), Some(Work::rebuild()));
}

#[test]
fn merging_work_is_a_union() {
    assert_eq!(Work::converge().merge(Work::converge()), Work::converge());
    assert_eq!(Work::converge().merge(Work::rebuild()), Work::rebuild());
    assert_eq!(Work::rebuild().merge(Work::converge()), Work::rebuild());
}

fn plan(document: &[(&str, &str)], installed: Option<&[u8]>) -> Option<Vec<u8>> {
    let declarations: Vec<Variable> = document
        .iter()
        .map(|(key, value)| Variable { key: key.to_string(), value: value.to_string() })
        .collect();
    let desired = EnvironmentProvider::prepare(Ok(()), &declarations).unwrap();
    EnvironmentProvider::plan(desired, installed).map(|change| change.contents().to_vec())
}

#[test]
fn comparison_preserves_absence_empty_files_and_arbitrary_bytes() {
    for (installed, expected) in [
        (None, false),
        (Some(b"".as_slice()), false),
        (Some(b"EDITOR=hx\n".as_slice()), true),
        (Some(b"\xff".as_slice()), true),
    ] {
        let change = plan(&[], installed);
        assert_eq!(change.is_some(), expected);
        if let Some(contents) = change {
            assert_eq!(contents, b"");
        }
    }

    for (installed, expected) in [
        (None, true),
        (Some(b"".as_slice()), true),
        (Some(b"EDITOR=hx\n".as_slice()), false),
        (Some(b"EDITOR=hx".as_slice()), true),
        (Some(b"\xff".as_slice()), true),
    ] {
        let change = plan(&[("EDITOR", "hx")], installed);
        assert_eq!(change.is_some(), expected);
        if let Some(contents) = change {
            assert_eq!(contents, b"EDITOR=hx\n");
        }
    }
}

#[test]
fn values_are_quoted_unless_plain_and_later_declarations_win() {
    let variables = EnvironmentProvider::desired(&vec![
        Variable { key: "PATH".to_string(), value: "/bin".to_string() },
        Variable { key: "GREETING".to_string(), value: "it's me".to_string() },
        Variable { key: "PATH".to_string(), value: "/usr/bin".to_string() },
    ]);
    assert_eq!(variables.len(), 2);
    assert_eq!(variables[0].0, "GREETING");
    assert_eq!(variables[1], ("PATH".to_string(), "/usr/bin".to_string()));
    let rendered = EnvironmentProvider::render(&variables);
    assert_eq!(rendered, b"GREETING='it'\\''s me'\nPATH=/usr/bin\n".to_vec());
    let empty = EnvironmentProvider::render(&vec![("EMPTY".to_string(), String::new())]);
    assert_eq!(empty, b"EMPTY=\n".to_vec());
}

#[test]
fn a_validation_failure_is_the_environment_domains_error() {
    let error = EnvironmentProvider::prepare(Err("bad key".to_string()), &vec![]).unwrap_err();
    assert_eq!(error.domain, "environment");
    assert_eq!(error.message, "bad key");
}

fn address(surface: &str) -> SurfaceRef {
    SurfaceRef::module("wifi".to_string(), surface.to_string(), "slot".to_string())
}

fn embedded() -> Vec<u8> {
    b"embedded:slot".to_vec()
}

fn window() -> Vec<u8> {
    b"window:org.omega.wifi:100x100".to_vec()
}

fn desired() -> DesiredInstance {
    DesiredInstance { config: vec![], presentation: None, anchor: None }
}

fn installed() -> InstalledInstance {
    InstalledInstance { config: vec![], presentation: embedded(), anchor: None }
}

#[test]
fn unchanged_facts_produce_no_work_and_each_changed_fact_requires_an_update() {
    let address_ = address("indicator");
    let desired_map = vec![(address_.clone(), desired())];
    let installed_map = vec![(address_.clone(), installed())];
    assert!(PresentationProvider::plan(&desired_map, &installed_map).is_empty());
    let mut configured = desired();
    configured.config = b"label=changed".to_vec();
    let mut anchored = desired();
    anchored.anchor = Some(address("other"));
    let mut windowed = desired();
    windowed.presentation = Some(window());
    for declaration in [configured, anchored, windowed] {
        let changes = PresentationProvider::plan(&vec![(address_.clone(), declaration.clone())], &installed_map);
        assert_eq!(changes.len(), 1);
        assert_eq!(changes[0].action, Action::Update);
        assert_eq!(changes[0].config, declaration.config);
        assert_eq!(changes[0].anchor.is_some(), declaration.anchor.is_some());
        assert_eq!(changes[0].presentation, declaration.presentation);
    }
    let specified = window();
    let desired_map = vec![(address_.clone(), DesiredInstance { presentation: Some(specified.clone()), ..desired() })];
    let installed_map = vec![(address_, InstalledInstance { presentation: specified, ..installed() })];
    assert!(PresentationProvider::plan(&desired_map, &installed_map).is_empty());
}

fn same(a: &SurfaceRef, b: &SurfaceRef) -> bool {
    a.same(b)
}

#[test]
fn anchors_precede_popups_and_removed_addresses_are_deleted() {
    let anchor = address("z-indicator");
    let popup = address("a-panel");
    let removed = address("removed");
    // In address order: the popup's surface sorts first.
    let desired_map = vec![
        (popup.clone(), DesiredInstance { anchor: Some(anchor.clone()), ..desired() }),
        (anchor.clone(), desired()),
    ];
    let installed_map = vec![(removed.clone(), installed())];
    let changes = PresentationProvider::plan(&desired_map, &installed_map);
    assert_eq!(changes.len(), 3);
    assert!(same(&changes.last().unwrap().address, &popup));
    assert!(changes.iter().any(|change| same(&change.address, &anchor) && change.action == Action::Create));
    assert!(changes.iter().any(|change| same(&change.address, &removed) && change.action == Action::Delete));
    // Anchor readiness is checked by apply, not assumed by pure planning.
    let desired_map = vec![(popup, DesiredInstance { anchor: Some(anchor), ..desired() })];
    assert_eq!(PresentationProvider::plan(&desired_map, &vec![]).len(), 1);
}

fn names(list: &[&str]) -> Vec<String> {
    list.iter().map(|name| name.to_string()).collect()
}

#[test]
fn settings_that_changed_or_left_the_document_cycle_their_unit() {
    let mut provider = ConfigProvider::new();
    let built = names(&["clock", "wifi"]);
    let document = vec![("wifi".to_string(), b"ssid=home".to_vec()), ("wifi".to_string(), b"ignored".to_vec())];
    // Only wifi is configured otherwise than on file (nothing is on file).
    assert_eq!(provider.plan(&built, &document), names(&["wifi"]));
    let plan = provider.plan(&built, &document);
    assert_eq!(provider.apply(&built, &document, &plan), names(&["wifi"]));
    assert_eq!(provider.config("wifi"), b"ssid=home".to_vec());
    // Planned again, the same document changes nothing.
    assert!(provider.plan(&built, &document).is_empty());
    // Taking wifi's settings out of the document sends it back to defaults.
    assert_eq!(provider.plan(&built, &vec![]), names(&["wifi"]));
    // A change naming a unit that was not built is skipped.
    assert!(provider.apply(&built, &document, &names(&["ghost"])).is_empty());
    assert!(provider.config("ghost").is_empty());
}

fn declared(name: &str, enabled: bool) -> Declared {
    Declared { name: Ok(name.to_string()), enabled }
}

#[test]
fn units_start_when_built_and_enabled_and_stop_when_no_longer_wanted() {
    let changes = UnitProvider::plan(
        &vec![declared("clock", false)],
        &names(&["clock", "wifi"]),
        &names(&["clock", "old"]),
    )
    .unwrap();
    assert_eq!(
        changes,
        vec![
            UnitChange::Stop("clock".to_string()),
            UnitChange::Stop("old".to_string()),
            UnitChange::Start("wifi".to_string()),
        ]
    );
    assert!(UnitProvider::plan(&vec![], &names(&["wifi"]), &names(&["wifi"])).unwrap().is_empty());
}

#[test]
fn unknown_duplicate_and_malformed_unit_names_are_refused() {
    let error = UnitProvider::plan(&vec![declared("ghost", true)], &names(&["wifi"]), &vec![]).unwrap_err();
    assert_eq!(error.message, "unknown or duplicate unit ghost");
    let error = UnitProvider::plan(&vec![declared("wifi", true), declared("wifi", false)], &names(&["wifi"]), &vec![])
        .unwrap_err();
    assert_eq!(error.message, "unknown or duplicate unit wifi");
    let malformed = Declared { name: Err("not a name".to_string()), enabled: true };
    let error = UnitProvider::plan(&vec![malformed], &names(&["wifi"]), &vec![]).unwrap_err();
    assert_eq!(error.message, "not a name");
}

fn schedule(id: &str, spec: &[u8]) -> DeclaredSchedule {
    DeclaredSchedule { id: id.to_string(), spec: spec.to_vec(), valid: Ok(()) }
}

#[test]
fn schedules_are_declared_replaced_and_removed_by_identity() {
    let changes = ScheduleProvider::plan(
        &vec![schedule("tick", b"every 5s"), schedule("same", b"every 1s"), schedule("new", b"every 9s")],
        &vec![
            RunningSchedule { id: "tick".to_string(), spec: b"every 4s".to_vec() },
            RunningSchedule { id: "same".to_string(), spec: b"every 1s".to_vec() },
            RunningSchedule { id: "gone".to_string(), spec: b"every 2s".to_vec() },
        ],
    )
    .unwrap();
    assert_eq!(changes.len(), 3);
    assert!(matches!(&changes[0], ScheduleChange::Remove(id) if id == "gone"));
    assert!(matches!(&changes[1], ScheduleChange::Declare(id, spec) if id == "new" && spec == b"every 9s"));
    assert!(matches!(&changes[2], ScheduleChange::Declare(id, spec) if id == "tick" && spec == b"every 5s"));
    let error = ScheduleProvider::plan(&vec![schedule("a", b"x"), schedule("a", b"y")], &vec![]).unwrap_err();
    assert_eq!(error.domain, "schedules");
    assert_eq!(error.message, "empty or duplicate schedule id");
    let invalid = DeclaredSchedule { id: "b".to_string(), spec: vec![], valid: Err("every 0s".to_string()) };
    assert_eq!(ScheduleProvider::plan(&vec![invalid], &vec![]).unwrap_err().message, "every 0s");
}

#[test]
fn deployment_status_follows_acceptance_and_passes() {
    let mut deployment = Deployment::new();
    // Nothing accepted: a pass settles nothing.
    deployment.reconciled(None);
    assert_eq!(deployment.snapshot().reconciliation, ReconciliationState::Unspecified);
    deployment.candidate("g2".to_string());
    deployment.activation_failed("broken".to_string());
    assert_eq!(deployment.snapshot().activation_error, "broken");
    deployment.accepted("g2".to_string());
    let status = deployment.snapshot();
    assert_eq!(status.activation_error, "");
    assert_eq!(status.reconciliation, ReconciliationState::Pending);
    deployment.reconciled(Some("unit failed".to_string()));
    assert_eq!(deployment.snapshot().reconciliation, ReconciliationState::Pending);
    assert_eq!(deployment.snapshot().reconciliation_error, "unit failed");
    deployment.reconciled(None);
    assert_eq!(deployment.snapshot().reconciliation, ReconciliationState::Settled);
    deployment.applying_shell("g2".to_string(), false);
    assert_eq!(deployment.snapshot().shell, ShellApplicationState::NotDeclared);
    deployment.applying_shell("g2".to_string(), true);
    deployment.shell_applied(Some("denied".to_string()));
    assert_eq!(deployment.snapshot().shell, ShellApplicationState::Failed);
    assert_eq!(deployment.snapshot().shell_error, "denied");
}

#[test]
fn a_failed_activation_is_retried_with_a_reload() {
    let mut passes = Passes::new();
    assert!(!passes.needs_reload(Work::converge()));
    passes.reloaded(Reload::ActivationFailed);
    passes.converged(true);
    assert!(passes.retry);
    assert!(passes.needs_reload(Work::converge()));
    passes.reloaded(Reload::Activated);
    passes.converged(true);
    assert!(!passes.retry && !passes.needs_reload(Work::converge()));
    passes.converged(false);
    assert!(passes.retry);

    assert_eq!(adopt(false, Published::Broken, &vec![false, true, true]), Adopt::Recovery(1));
    assert_eq!(adopt(true, Published::Broken, &vec![true]), Adopt::Published);
    assert_eq!(adopt(false, Published::Nothing, &vec![false]), Adopt::Published);

    assert!(!descriptor_changed(Some("h"), Some("h"), b"a", b"a"));
    assert!(descriptor_changed(Some("h"), None, b"a", b"a"));
    assert!(descriptor_changed(Some("h"), Some("h"), b"a", b"b"));

    assert!(activation_blocked(&names(&["a", "b"]), &vec![false, false]).is_ok());
    assert_eq!(
        activation_blocked(&names(&["a", "b", "c"]), &vec![false, true, true]).unwrap_err(),
        "b is held by omega dev; disconnect it before activating this build"
    );
}

fn entry(name: &str, executable: Result<bool, String>) -> DescriptorEntry {
    DescriptorEntry {
        name: name.to_string(),
        program: format!("units/{name}/program"),
        manifest: format!("units/{name}/manifest.toml"),
        expected_program: format!("units/{name}/program"),
        expected_manifest: format!("units/{name}/manifest.toml"),
        executable,
    }
}

#[test]
fn a_build_descriptor_lists_each_unit_once_where_the_layout_puts_it() {
    assert!(check_descriptor(&vec![entry("a", Ok(true)), entry("b", Ok(true))]).is_ok());
    assert_eq!(
        check_descriptor(&vec![entry("a", Ok(true)), entry("a", Ok(true))]).unwrap_err(),
        "invalid or duplicate build descriptor entry"
    );
    let mut moved = entry("a", Ok(true));
    moved.program = "elsewhere".to_string();
    assert_eq!(check_descriptor(&vec![moved]).unwrap_err(), "invalid or duplicate build descriptor entry");
    assert_eq!(check_descriptor(&vec![entry("a", Ok(false)), entry("b", Err("x".to_string()))]).unwrap_err(), "a is not an executable file");
    assert_eq!(check_descriptor(&vec![entry("b", Err("No such file or directory".to_string()))]).unwrap_err(), "No such file or directory");
}

#[test]
fn a_provider_error_reads_as_its_domain_then_why() {
    let error = omega_daemon::reconcile::ProviderError::new("environment", "permission denied".to_string());
    assert_eq!(error.describe(), "environment: permission denied");
}
