use omega_daemon::events::{BatteryLevel, EventKind, EventStamp, TopicChange, Transitions};

fn level(percent: u32) -> BatteryLevel {
    BatteryLevel {
        above_low: percent > 15,
        at_most_low: percent <= 15,
        above_critical: percent > 5,
        at_most_critical: percent <= 5,
    }
}

fn kinds(transitions: &mut Transitions, topics: Vec<TopicChange>) -> Vec<EventKind> {
    transitions.of(&topics).into_iter().map(|implied| implied.kind).collect()
}

#[test]
fn event_identities_count_up_from_one() {
    let mut stamp = EventStamp::new();
    assert_eq!(stamp.next_id(), 1);
    assert_eq!(stamp.next_id(), 2);
    let event = stamp.stamp(EventKind::AcPlugged, "detail", 1_700_000_000_000_000_000);
    assert_eq!((event.id, event.timestamp_ns, event.kind, event.detail), (3, 1_700_000_000_000_000_000, EventKind::AcPlugged, "detail"));
    let ids: Vec<u64> = (0..5).map(|_| stamp.stamp((), (), 0).id).collect();
    assert_eq!(ids, vec![4, 5, 6, 7, 8]);
}

#[test]
fn the_first_reading_is_the_state_of_the_world_not_a_change() {
    let mut transitions = Transitions::new();
    assert!(kinds(&mut transitions, vec![TopicChange::Battery(level(3)), TopicChange::Mains(false)]).is_empty());
}

#[test]
fn crossings_are_reported_once_per_crossing() {
    let mut transitions = Transitions::new();
    kinds(&mut transitions, vec![TopicChange::Battery(level(50)), TopicChange::Mains(true), TopicChange::Idle(false)]);
    assert_eq!(kinds(&mut transitions, vec![TopicChange::Battery(level(12))]), vec![EventKind::BatteryLow]);
    // Read again at the same level: no event.
    assert!(kinds(&mut transitions, vec![TopicChange::Battery(level(12))]).is_empty());
    assert_eq!(kinds(&mut transitions, vec![TopicChange::Battery(level(4))]), vec![EventKind::BatteryCritical]);
    assert_eq!(kinds(&mut transitions, vec![TopicChange::Mains(false)]), vec![EventKind::AcUnplugged]);
    assert_eq!(kinds(&mut transitions, vec![TopicChange::Mains(true)]), vec![EventKind::AcPlugged]);
    assert_eq!(kinds(&mut transitions, vec![TopicChange::Idle(true)]), vec![EventKind::IdleEntered]);
    assert_eq!(kinds(&mut transitions, vec![TopicChange::Idle(false)]), vec![EventKind::IdleExited]);
}

#[test]
fn falling_straight_to_critical_is_critical() {
    let mut transitions = Transitions::new();
    kinds(&mut transitions, vec![TopicChange::Battery(level(50))]);
    assert_eq!(kinds(&mut transitions, vec![TopicChange::Battery(level(2))]), vec![EventKind::BatteryCritical]);
}

#[test]
fn clipboard_changes_are_events_and_a_cleared_topic_starts_over() {
    let mut transitions = Transitions::new();
    let implied = transitions.of(&vec![
        TopicChange::Other,
        TopicChange::Clipboard("a".to_string()),
        TopicChange::Clipboard("b".to_string()),
    ]);
    assert_eq!(implied.len(), 1);
    assert_eq!((implied[0].kind, implied[0].topic), (EventKind::ClipboardChanged, 2));
    kinds(&mut transitions, vec![TopicChange::Cleared("clipboard".to_string())]);
    assert!(kinds(&mut transitions, vec![TopicChange::Clipboard("c".to_string())]).is_empty());
}
