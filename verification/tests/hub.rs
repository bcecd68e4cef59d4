use omega_daemon::hub::history::{History, TryRecvError};
use omega_daemon::hub::views::{view_size, PublishError, Selector, ViewRecord, ViewRegistry, VIEW_BYTES, VIEW_COUNT};
use omega_daemon::hub::Heartbeat;
use omega_daemon::refusal::{ErrorCode, Refusable};

const LIMIT: usize = 1024 * 1024;

fn record(plugin: &str, surface: &str, module: Option<&str>, size: usize, content: &[u8]) -> ViewRecord {
    ViewRecord {
        plugin: plugin.to_string(),
        surface: surface.to_string(),
        module: module.map(|m| m.to_string()),
        content: content.to_vec(),
        size,
        revision: 0,
    }
}

fn view(id: &str, size: usize) -> (String, ViewRecord) {
    (format!("test-example-{id}-"), record("example", id, None, size, id.as_bytes()))
}

#[test]
fn lagged_receivers_drain_retained_entries_after_publication_closes() {
    let mut history = History::new();
    let mut receiver = history.subscribe();
    for value in 0..66u64 {
        history.send(value, 1);
    }
    let mut late = history.subscribe();
    // Publication has closed from here on.
    assert_eq!(late.try_recv(&history, true), Err(TryRecvError::Closed));
    assert_eq!(receiver.try_recv(&history, true), Err(TryRecvError::Lagged(2)));
    for value in 2..66u64 {
        assert_eq!(receiver.try_recv(&history, true), Ok(&value));
    }
    assert_eq!(receiver.try_recv(&history, true), Err(TryRecvError::Closed));
}

#[test]
fn byte_eviction_reports_exact_lag_and_keeps_the_newest_values() {
    let mut history = History::new();
    let mut receiver = history.subscribe();
    for value in 0..4u64 {
        history.send(value, 3 * 1024 * 1024);
    }
    assert_eq!(receiver.try_recv(&history, false), Err(TryRecvError::Lagged(2)));
    assert_eq!(receiver.try_recv(&history, false), Ok(&2));
    assert_eq!(receiver.try_recv(&history, false), Ok(&3));
    assert_eq!(receiver.try_recv(&history, true), Err(TryRecvError::Closed));
}

#[test]
fn cancelled_waits_preserve_delivery_and_count_eviction_is_bounded() {
    let mut history = History::new();
    let mut receiver = history.subscribe();
    assert_eq!(receiver.try_recv(&history, false), Err(TryRecvError::Empty));
    for value in 0..65u64 {
        history.send(value, 1);
    }
    assert_eq!(receiver.try_recv(&history, false), Err(TryRecvError::Lagged(1)));
    assert_eq!(receiver.try_recv(&history, false), Ok(&1));
}

#[test]
fn view_saturation_is_transactional_and_removal_releases_capacity() {
    let mut views = ViewRegistry::new(LIMIT * 4);
    let (first, record_first) = view("first", 3_000_000);
    let (second, record_second) = view("second", 3_000_000);
    let (third, record_third) = view("third", 3_000_000);
    views.publish(first.clone(), record_first).unwrap();
    views.publish(second, record_second).unwrap();
    let revision = views.revision_now();
    assert_eq!(views.publish(third, record_third), Err(PublishError::Full));
    assert_eq!(views.revision_now(), revision);
    let (_, removed) = views.remove(&first).unwrap();
    let (_, again) = view("first", 3_000_000);
    let recreated = views.publish(first, again).unwrap().unwrap();
    assert!(recreated > removed);
    assert!(views.bytes_now() <= VIEW_BYTES);
}

#[test]
fn transient_view_addresses_leave_no_revision_registry() {
    let mut views = ViewRegistry::new(LIMIT);
    for id in 0..VIEW_COUNT + 1 {
        let (key, record) = view(&format!("view{id}"), 0);
        views.publish(key.clone(), record).unwrap();
        views.remove(&key).unwrap();
    }
    assert_eq!(views.len(), 0);
    assert_eq!(views.bytes_now(), 0);
    assert_eq!(views.revision_now(), 2 * (VIEW_COUNT as u64 + 1));
}

#[test]
fn view_count_and_individual_event_size_are_bounded() {
    let mut views = ViewRegistry::new(LIMIT);
    for id in 0..VIEW_COUNT {
        let (key, record) = view(&format!("view{id}"), 0);
        views.publish(key, record).unwrap();
    }
    let (key, record) = view("extra", 0);
    assert_eq!(views.publish(key, record), Err(PublishError::Full));
    let (key, record) = view("x", LIMIT + 1);
    assert_eq!(views.publish(key, record), Err(PublishError::TooLarge));
}

#[test]
fn an_unchanged_view_advances_nothing() {
    let mut views = ViewRegistry::new(LIMIT);
    let (key, first) = view("same", 10);
    assert_eq!(views.publish(key.clone(), first), Ok(Some(1)));
    let (_, again) = view("same", 10);
    assert_eq!(views.publish(key.clone(), again), Ok(None));
    assert_eq!(views.revision_now(), 1);
    let changed = record("example", "same", None, 12, b"changed");
    assert_eq!(views.publish(key, changed), Ok(Some(2)));
    assert_eq!(views.bytes_now(), 12);
}

#[test]
fn selectors_pick_views_in_key_order() {
    let mut views = ViewRegistry::new(LIMIT);
    views.publish("b".to_string(), record("wifi", "panel", Some("slot"), 1, b"1")).unwrap();
    views.publish("a".to_string(), record("wifi", "indicator", Some("bar"), 1, b"2")).unwrap();
    views.publish("c".to_string(), record("clock", "face", Some("slot"), 1, b"3")).unwrap();
    assert_eq!(views.keys_matching(&Selector::Plugin("wifi".to_string())), vec!["a", "b"]);
    assert_eq!(views.keys_matching(&Selector::Module("slot".to_string())), vec!["b", "c"]);
    assert_eq!(
        views.keys_matching(&Selector::Surface("wifi".to_string(), "panel".to_string(), Some("slot".to_string()))),
        vec!["b"]
    );
    assert!(views.remove("missing").is_none());
}

#[test]
fn view_size_counts_every_part_with_its_overhead() {
    // 10 + 8 for the tree, 3 + 8 and 4 + 8 pending, 8, 5 + 8 for the error,
    // the names, and 96 for the rest.
    let size = view_size(Some(10), &vec![3, 4], 5, 1, 2, Some(3), 4, 5, 6, ).unwrap();
    assert_eq!(size, 18 + 23 + 8 + 13 + 1 + 2 + 3 + 4 + 5 + 6 + 96);
    assert_eq!(view_size(None, &vec![], 0, 0, 0, None, 0, 0, 0), Some(8 + 8 + 96));
    assert_eq!(view_size(Some(usize::MAX), &vec![], 0, 0, 0, None, 0, 0, 0), None);
}

#[test]
fn a_heartbeat_always_says_so() {
    assert!(Heartbeat::beat().heartbeat);
}

#[test]
fn forgetting_a_plugin_removes_its_views_each_under_a_new_revision() {
    let mut views = ViewRegistry::new(LIMIT);
    views.publish("b".to_string(), record("wifi", "panel", Some("slot"), 1, b"1")).unwrap();
    views.publish("a".to_string(), record("wifi", "indicator", Some("bar"), 2, b"2")).unwrap();
    views.publish("c".to_string(), record("clock", "face", Some("slot"), 4, b"3")).unwrap();
    let removed = views.drop_matching(&Selector::Plugin("wifi".to_string()));
    assert_eq!(removed.len(), 2);
    assert_eq!((removed[0].0.surface.as_str(), removed[0].1), ("indicator", 4));
    assert_eq!((removed[1].0.surface.as_str(), removed[1].1), ("panel", 5));
    assert_eq!(views.len(), 1);
    assert_eq!(views.bytes_now(), 4);
    assert_eq!(views.revision_now(), 5);
    assert!(views.drop_matching(&Selector::Module("none".to_string())).is_empty());
    assert_eq!(views.revision_now(), 5);
}

#[test]
fn refused_publications_answer_with_their_codes() {
    let too_large = PublishError::TooLarge.refusal();
    assert_eq!(too_large.code, ErrorCode::PayloadTooLarge);
    assert_eq!(too_large.message, "publication exceeds payload limit");
    assert_eq!(PublishError::Full.refusal().code, ErrorCode::ResourceExhausted);
    assert_eq!(PublishError::RevisionExhausted.refusal().message, "view revision exhausted");
}
