//! Assign event identity and derive state-transition events.
//! Derive transitions from published state updates so event payloads and
//! readings agree.
use vstd::prelude::*;

verus! {

/// Assigns every event its identity.
#[derive(Debug)]
pub struct EventStamp {
    next: u64,
}

impl EventStamp {
    pub closed spec fn issued(&self) -> u64 {
        self.next
    }

    pub fn new() -> (r: Self)
        ensures
            r.issued() == 0,
    {
        EventStamp { next: 0 }
    }

    /// The next event identity: one more than the last, wrapping past the
    /// largest.
    pub fn next_id(&mut self) -> (id: u64)
        ensures
            id == next_after(old(self).issued()),
            final(self).issued() == id,
    {
        self.next = if self.next == u64::MAX { 0 } else { self.next + 1 };
        self.next
    }

    /// An event of `kind` with `detail`, stamped with the next identity and
    /// the time it was read at (nanoseconds since the Unix epoch).
    pub fn stamp<K, D>(&mut self, kind: K, detail: D, timestamp_ns: u64) -> (e: Stamped<K, D>)
        ensures
            e.id == next_after(old(self).issued()),
            final(self).issued() == e.id,
            e.timestamp_ns == timestamp_ns,
            e.kind == kind,
            e.detail == detail,
    {
        let id = self.next_id();
        Stamped { id, timestamp_ns, kind, detail }
    }
}

/// An event as stamped: its identity, when, what kind, and what it carries.
#[derive(Debug)]
pub struct Stamped<K, D> {
    pub id: u64,
    pub timestamp_ns: u64,
    pub kind: K,
    pub detail: D,
}

/// The identity that follows `id`.
pub open spec fn next_after(id: u64) -> u64 {
    if id == u64::MAX { 0 } else { (id + 1) as u64 }
}

/// The identities `n` stampings hand out, one after another, from a stamp
/// that last issued `start`.
pub open spec fn issued_ids(start: u64, n: nat) -> Seq<u64>
    decreases n,
{
    if n == 0 {
        Seq::empty()
    } else {
        let prior = issued_ids(start, (n - 1) as nat);
        prior.push(next_after(if n == 1 { start } else { prior.last() }))
    }
}

proof fn lemma_issued_ids(start: u64, n: nat)
    requires
        n <= 0x1_0000_0000_0000_0000,
    ensures
        issued_ids(start, n).len() == n,
        forall|i: int| 0 <= i < n ==> #[trigger] issued_ids(start, n)[i] == (if start + i + 1 <= u64::MAX {
            start + i + 1
        } else {
            start + i + 1 - 0x1_0000_0000_0000_0000
        }),
    decreases n,
{
    if n > 0 {
        lemma_issued_ids(start, (n - 1) as nat);
        let prior = issued_ids(start, (n - 1) as nat);
        let ids = issued_ids(start, n);
        assert forall|i: int| 0 <= i < n implies #[trigger] ids[i] == (if start + i + 1 <= u64::MAX {
            start + i + 1
        } else {
            start + i + 1 - 0x1_0000_0000_0000_0000
        }) by {
            if i < n - 1 {
                assert(ids[i] == prior[i]);
            } else if n > 1 {
                assert(prior.last() == prior[n - 2]);
                assert(ids[i] == next_after(prior[n - 2]));
            }
        }
    }
}

/// Event identities never repeat while they last: stamping `n` events one
/// after another (no more than there are identities) hands out `n` distinct
/// identities, the first one past the last issued and each one past the one
/// before.
pub proof fn stamped_ids_are_distinct_and_consecutive(start: u64, n: nat)
    requires
        n <= 0x1_0000_0000_0000_0000,
    ensures
        issued_ids(start, n).len() == n,
        n > 0 ==> issued_ids(start, n)[0] == next_after(start),
        forall|i: int| 0 <= i < n - 1 ==> #[trigger] issued_ids(start, n)[i + 1] == next_after(issued_ids(start, n)[i]),
        forall|i: int, j: int| 0 <= i < j < n ==> #[trigger] issued_ids(start, n)[i] != #[trigger] issued_ids(start, n)[j],
{
    lemma_issued_ids(start, n);
}

/// Where a battery reading stands against the two thresholds the ontology
/// names, as its level compares: above the low mark (15%) or at most it,
/// above the critical mark (5%) or at most it. A level that compares with
/// neither side of a mark (not a number) is on neither.
#[derive(Debug, Clone, Copy, PartialEq, Eq, Structural)]
pub struct BatteryLevel {
    pub above_low: bool,
    pub at_most_low: bool,
    pub above_critical: bool,
    pub at_most_critical: bool,
}

/// One topic of a published patch, as far as transitions read it.
#[derive(Debug, Clone)]
pub enum TopicChange {
    Battery(BatteryLevel),
    Mains(bool),
    Idle(bool),
    Clipboard(String),
    /// The topic was cleared; its name.
    Cleared(String),
    /// Anything else.
    Other,
}

/// The events a patch can imply.
#[derive(Debug, Clone, Copy, PartialEq, Eq, Structural)]
pub enum EventKind {
    AcPlugged,
    AcUnplugged,
    IdleEntered,
    IdleExited,
    ClipboardChanged,
    BatteryLow,
    BatteryCritical,
}

/// An implied event, and the topic of the patch it came from.
#[derive(Debug, Clone, Copy, PartialEq, Eq, Structural)]
pub struct Implied {
    pub kind: EventKind,
    pub topic: usize,
}

pub struct TransitionsView {
    pub battery: Option<BatteryLevel>,
    pub mains: Option<bool>,
    pub idle: Option<bool>,
    pub clipboard: Option<Seq<char>>,
}

/// The event a new battery reading implies: none for the first reading,
/// which is the state of the world and not a change in it; falling past the
/// critical mark is critical, else falling past the low mark is low.
pub open spec fn battery_event(previous: Option<BatteryLevel>, next: BatteryLevel) -> Option<EventKind> {
    match previous {
        None => None,
        Some(p) => if p.above_critical && next.at_most_critical {
            Some(EventKind::BatteryCritical)
        } else if p.above_low && next.at_most_low {
            Some(EventKind::BatteryLow)
        } else {
            None
        },
    }
}

/// What one topic does to what was seen, and the event it implies.
pub open spec fn transition_step(s: TransitionsView, topic: TopicChange) -> (TransitionsView, Option<EventKind>) {
    match topic {
        TopicChange::Battery(level) => (TransitionsView { battery: Some(level), ..s }, battery_event(s.battery, level)),
        TopicChange::Mains(connected) => (
            TransitionsView { mains: Some(connected), ..s },
            if s.mains matches Some(p) && p != connected {
                Some(if connected { EventKind::AcPlugged } else { EventKind::AcUnplugged })
            } else {
                None
            },
        ),
        TopicChange::Idle(idle) => (
            TransitionsView { idle: Some(idle), ..s },
            if s.idle matches Some(p) && p != idle {
                Some(if idle { EventKind::IdleEntered } else { EventKind::IdleExited })
            } else {
                None
            },
        ),
        TopicChange::Clipboard(text) => (
            TransitionsView { clipboard: Some(text@), ..s },
            if s.clipboard matches Some(p) && p != text@ {
                Some(EventKind::ClipboardChanged)
            } else {
                None
            },
        ),
        TopicChange::Cleared(name) => (
            if name@ == "battery"@ {
                TransitionsView { battery: None, ..s }
            } else if name@ == "mains"@ {
                TransitionsView { mains: None, ..s }
            } else if name@ == "idle"@ {
                TransitionsView { idle: None, ..s }
            } else if name@ == "clipboard"@ {
                TransitionsView { clipboard: None, ..s }
            } else {
                s
            },
            None,
        ),
        TopicChange::Other => (s, None),
    }
}

/// What a patch's topics do, in order, and the events they imply.
pub open spec fn transitions_of(s: TransitionsView, topics: Seq<TopicChange>) -> (TransitionsView, Seq<Implied>)
    decreases topics.len(),
{
    if topics.len() == 0 {
        (s, Seq::empty())
    } else {
        let (before, events) = transitions_of(s, topics.drop_last());
        let (after, event) = transition_step(before, topics.last());
        (after, match event {
            Some(kind) => events.push(Implied { kind, topic: (topics.len() - 1) as usize }),
            None => events,
        })
    }
}

/// Whether `topic` moves a reading that was recorded before it: a value
/// other than the one seen, or a battery level that falls across a mark.
pub open spec fn changes_recorded(before: TransitionsView, topic: TopicChange) -> bool {
    match topic {
        TopicChange::Battery(l) => before.battery matches Some(p) && ((p.above_critical && l.at_most_critical) || (
        p.above_low && l.at_most_low)),
        TopicChange::Mains(c) => before.mains matches Some(p) && p != c,
        TopicChange::Idle(i) => before.idle matches Some(p) && p != i,
        TopicChange::Clipboard(t) => before.clipboard matches Some(p) && p != t@,
        _ => false,
    }
}

/// An event is implied only by a change: each event a patch implies names
/// one of its topics, and that topic moves a reading recorded before it (by
/// an earlier patch or earlier in this one, and not cleared since). A first
/// reading, or one after its topic was cleared, implies nothing.
pub proof fn events_come_only_from_recorded_changes(s: TransitionsView, topics: Seq<TopicChange>)
    requires
        topics.len() <= usize::MAX,
    ensures
        forall|k: int| 0 <= k < transitions_of(s, topics).1.len() ==> {
            let t = (#[trigger] transitions_of(s, topics).1[k]).topic as int;
            &&& 0 <= t < topics.len()
            &&& changes_recorded(transitions_of(s, topics.take(t)).0, topics[t])
        },
    decreases topics.len(),
{
    if topics.len() > 0 {
        let init = topics.drop_last();
        events_come_only_from_recorded_changes(s, init);
        let (before, events) = transitions_of(s, init);
        let all = transitions_of(s, topics).1;
        assert(topics.take(topics.len() - 1) =~= init);
        assert forall|k: int| 0 <= k < all.len() implies {
            let t = (#[trigger] all[k]).topic as int;
            &&& 0 <= t < topics.len()
            &&& changes_recorded(transitions_of(s, topics.take(t)).0, topics[t])
        } by {
            let (after, event) = transition_step(before, topics.last());
            if k < events.len() {
                assert(all[k] == events[k]);
                let t = events[k].topic as int;
                assert(0 <= t < init.len());
                assert(topics.take(t) =~= init.take(t));
                assert(topics[t] == init[t]);
            } else {
                assert(event is Some);
                assert(all[k].topic == topics.len() - 1);
                assert(topics[topics.len() - 1] == topics.last());
                assert(changes_recorded(before, topics.last()));
            }
        }
    }
}

/// Turns state changes into the events the ontology names.
#[derive(Debug)]
pub struct Transitions {
    battery: Option<BatteryLevel>,
    mains: Option<bool>,
    idle: Option<bool>,
    clipboard: Option<String>,
}

impl View for Transitions {
    type V = TransitionsView;

    closed spec fn view(&self) -> TransitionsView {
        TransitionsView {
            battery: self.battery,
            mains: self.mains,
            idle: self.idle,
            clipboard: match self.clipboard {
                Some(c) => Some(c@),
                None => None,
            },
        }
    }
}

impl Transitions {
    /// Nothing seen yet.
    pub fn new() -> (r: Self)
        ensures
            r@ == (TransitionsView { battery: None, mains: None, idle: None, clipboard: None }),
    {
        Transitions { battery: None, mains: None, idle: None, clipboard: None }
    }

    fn step(&mut self, topic: &TopicChange) -> (r: Option<EventKind>)
        ensures
            (final(self)@, r) == transition_step(old(self)@, *topic),
    {
        match topic {
            TopicChange::Battery(level) => {
                let previous = self.battery;
                self.battery = Some(*level);
                match previous {
                    None => None,
                    Some(p) => if p.above_critical && level.at_most_critical {
                        Some(EventKind::BatteryCritical)
                    } else if p.above_low && level.at_most_low {
                        Some(EventKind::BatteryLow)
                    } else {
                        None
                    },
                }
            },
            TopicChange::Mains(connected) => {
                let previous = self.mains;
                self.mains = Some(*connected);
                match previous {
                    Some(p) => if p != *connected {
                        Some(if *connected { EventKind::AcPlugged } else { EventKind::AcUnplugged })
                    } else {
                        None
                    },
                    None => None,
                }
            },
            TopicChange::Idle(idle) => {
                let previous = self.idle;
                self.idle = Some(*idle);
                match previous {
                    Some(p) => if p != *idle {
                        Some(if *idle { EventKind::IdleEntered } else { EventKind::IdleExited })
                    } else {
                        None
                    },
                    None => None,
                }
            },
            TopicChange::Clipboard(text) => {
                let changed = match &self.clipboard {
                    Some(p) => !crate::text::text_eq(p.as_str(), text.as_str()),
                    None => false,
                };
                self.clipboard = Some(text.clone());
                if changed {
                    Some(EventKind::ClipboardChanged)
                } else {
                    None
                }
            },
            TopicChange::Cleared(name) => {
                if crate::text::text_eq(name.as_str(), "battery") {
                    self.battery = None;
                } else if crate::text::text_eq(name.as_str(), "mains") {
                    self.mains = None;
                } else if crate::text::text_eq(name.as_str(), "idle") {
                    self.idle = None;
                } else if crate::text::text_eq(name.as_str(), "clipboard") {
                    self.clipboard = None;
                }
                None
            },
            TopicChange::Other => None,
        }
    }

    /// The events a patch implies, given everything seen before it.
    pub fn of(&mut self, topics: &Vec<TopicChange>) -> (r: Vec<Implied>)
        ensures
            (final(self)@, r@) == transitions_of(old(self)@, topics@),
    {
        let mut events: Vec<Implied> = Vec::new();
        let mut k: usize = 0;
        proof {
            assert(topics@.take(0) =~= Seq::<TopicChange>::empty());
        }
        while k < topics.len()
            invariant
                k <= topics@.len(),
                (self@, events@) == transitions_of(old(self)@, topics@.take(k as int)),
            decreases topics@.len() - k,
        {
            proof {
                assert(topics@.take(k + 1).drop_last() =~= topics@.take(k as int));
                assert(topics@.take(k + 1).last() == topics@[k as int]);
                assert(topics@.take(k + 1).len() - 1 == k);
            }
            let ghost before = events@;
            if let Some(kind) = self.step(&topics[k]) {
                events.push(Implied { kind, topic: k });
            }
            k = k + 1;
        }
        proof {
            assert(topics@.take(topics@.len() as int) =~= topics@);
        }
        events
    }
}

/// A level lies on one side of each mark at most.
pub open spec fn level_consistent(level: BatteryLevel) -> bool {
    !(level.above_low && level.at_most_low) && !(level.above_critical && level.at_most_critical)
}

/// Transitions are reported once per crossing, not once per poll: a topic
/// read again with the value just read implies no event.
pub proof fn repeated_reading_is_silent(s: TransitionsView, topic: TopicChange)
    requires
        topic matches TopicChange::Battery(level) ==> level_consistent(level),
    ensures
        transition_step(transition_step(s, topic).0, topic).1 is None,
{
}

/// The first battery reading is the state of the world, not a change in it.
pub proof fn first_reading_is_silent(s: TransitionsView, level: BatteryLevel)
    requires
        s.battery is None,
    ensures
        transition_step(s, TopicChange::Battery(level)).1 is None,
{
}

} // verus!
