//! Everything the daemon knows about one plugin.
use vstd::prelude::*;
use crate::manifest::{ManifestView, PluginManifest};
use crate::plugins::lifecycle::{
    detail_of, exit_code_of, lifecycle_next, phase_of, Lifecycle, LifecycleView, PluginPhase,
    Transition, TransitionView,
};
use crate::plugins::token::PluginToken;

verus! {

/// One plugin's manifest, identity, supervision, session, and lifecycle state.
///
/// The handles that stop or cycle a supervised process, and the channel of a
/// live session, are held beside the table by whoever owns them; a record
/// keeps whether they exist and which session is current.
#[derive(Debug)]
pub struct PluginRecord {
    pub name: String,
    /// What the build produced for it. Absent for a plugin this build does not
    /// contain but something still refers to.
    pub manifest: Option<PluginManifest>,
    pub lifecycle: Lifecycle,
    /// The secret its current process was spawned with.
    pub token: Option<PluginToken>,
    /// The process the token was first presented by.
    pub pid: Option<i32>,
    /// Whether the supervisor is running it.
    pub supervised: bool,
    /// The current session, while the plugin holds one.
    pub session: Option<u64>,
    /// The manifest the current session was admitted under: its commands
    /// are served by that contract until another session replaces it.
    pub contract: Option<PluginManifest>,
    /// Settings supplied to the running process at handshake, encoded.
    /// Changes require restart.
    pub config: Vec<u8>,
    /// Active adoption suppresses supervised spawning.
    pub adopted: bool,
    /// Spawns after the first.
    pub restarts: u32,
}

pub struct PluginRecordView {
    pub manifest: Option<ManifestView>,
    pub lifecycle: LifecycleView,
    pub token: Option<Seq<char>>,
    pub pid: Option<i32>,
    pub supervised: bool,
    pub session: Option<u64>,
    pub contract: Option<ManifestView>,
    pub config: Seq<u8>,
    pub adopted: bool,
    pub restarts: u32,
}

impl View for PluginRecord {
    type V = PluginRecordView;

    open spec fn view(&self) -> PluginRecordView {
        PluginRecordView {
            manifest: match self.manifest {
                Some(m) => Some(m@),
                None => None,
            },
            lifecycle: self.lifecycle@,
            token: match self.token {
                Some(t) => Some(t@),
                None => None,
            },
            pid: self.pid,
            supervised: self.supervised,
            session: self.session,
            contract: match self.contract {
                Some(m) => Some(m@),
                None => None,
            },
            config: self.config@,
            adopted: self.adopted,
            restarts: self.restarts,
        }
    }
}

/// A record of a plugin nothing has happened to yet.
pub open spec fn fresh_record() -> PluginRecordView {
    PluginRecordView {
        manifest: None,
        lifecycle: LifecycleView::Idle,
        token: None,
        pid: None,
        supervised: false,
        session: None,
        contract: None,
        config: Seq::empty(),
        adopted: false,
        restarts: 0,
    }
}

/// Supervision or development adoption currently owns the plugin.
pub open spec fn is_held_spec(r: PluginRecordView) -> bool {
    r.supervised || r.adopted
}

/// Whether the record's token, first presented by `pid` or by the pid it is
/// bound to, is `token`.
pub open spec fn claims_spec(r: PluginRecordView, pid: i32, token: Seq<char>) -> bool {
    r.token == Some(token) && (r.pid is None || r.pid == Some(pid))
}

/// What a successful claim leaves: the token bound to the presenting pid.
pub open spec fn claimed(r: PluginRecordView, pid: i32) -> PluginRecordView {
    PluginRecordView { pid: Some(pid), ..r }
}

/// A record after an event: a respawn counts as a restart unless the plugin
/// was idle (its first spawn).
pub open spec fn applied(r: PluginRecordView, t: TransitionView) -> PluginRecordView {
    PluginRecordView {
        lifecycle: lifecycle_next(r.lifecycle, t),
        restarts: if (t is Spawned) && !(r.lifecycle is Idle) && r.restarts < u32::MAX {
            (r.restarts + 1) as u32
        } else {
            r.restarts
        },
        ..r
    }
}

/// The phase reported: an adopted process reports its handshake state, a
/// supervised one its lifecycle.
pub open spec fn record_phase(r: PluginRecordView) -> PluginPhase {
    if !r.adopted {
        phase_of(r.lifecycle, r.session is Some)
    } else if r.session is Some {
        PluginPhase::Running
    } else {
        PluginPhase::Starting
    }
}

pub open spec fn adopted_detail() -> Seq<char> {
    "adopted for development"@
}

/// One row of the plugins topic.
#[derive(Debug, Clone, PartialEq, Eq)]
pub struct PluginStatus {
    pub plugin: String,
    pub phase: PluginPhase,
    pub restarts: u32,
    pub last_exit_code: i32,
    pub detail: String,
}

/// What a status row says of a record.
pub open spec fn status_of(
    name: Seq<char>,
    r: PluginRecordView,
    s: PluginStatus,
) -> bool {
    &&& s.plugin@ == name
    &&& s.phase == record_phase(r)
    &&& s.restarts == r.restarts
    &&& s.last_exit_code == exit_code_of(r.lifecycle)
    &&& s.detail@ == (if r.adopted {
        adopted_detail()
    } else {
        detail_of(r.lifecycle)
    })
}

impl PluginRecord {
    /// Status detail reported by an adopted development process.
    pub fn adopted_text() -> (r: &'static str)
        ensures
            r@ == adopted_detail(),
    {
        proof {
            reveal_strlit("adopted for development");
        }
        "adopted for development"
    }

    pub fn new(name: String) -> (r: Self)
        ensures
            r@ == fresh_record(),
            r.name@ == name@,
    {
        PluginRecord {
            name,
            manifest: None,
            lifecycle: Lifecycle::Idle,
            token: None,
            pid: None,
            supervised: false,
            session: None,
            contract: None,
            config: Vec::new(),
            adopted: false,
            restarts: 0,
        }
    }

    pub fn is_connected(&self) -> (r: bool)
        ensures
            r == (self@.session is Some),
    {
        self.session.is_some()
    }

    pub fn is_supervised(&self) -> (r: bool)
        ensures
            r == self@.supervised,
    {
        self.supervised
    }

    /// Whether supervision or development adoption currently owns the plugin.
    pub fn is_held(&self) -> (r: bool)
        ensures
            r == is_held_spec(self@),
    {
        self.supervised || self.adopted
    }

    /// Whether this record's token and pid admit the peer, without binding.
    pub fn accepts(&self, pid: i32, token: &str) -> (r: bool)
        ensures
            r == claims_spec(self@, pid, token@),
    {
        let matches = match &self.token {
            Some(held) => crate::text::text_eq(held.as_str(), token),
            None => false,
        };
        if !matches {
            return false;
        }
        match self.pid {
            None => true,
            Some(bound) => bound == pid,
        }
    }

    /// Validate token ownership. First use binds the token to the presenting pid.
    pub fn claims(&mut self, pid: i32, token: &str) -> (r: bool)
        ensures
            r == claims_spec(old(self)@, pid, token@),
            final(self)@ == (if r {
                claimed(old(self)@, pid)
            } else {
                old(self)@
            }),
            final(self).name@ == old(self).name@,
    {
        let matches = match &self.token {
            Some(held) => crate::text::text_eq(held.as_str(), token),
            None => false,
        };
        if !matches {
            return false;
        }
        match self.pid {
            None => {
                self.pid = Some(pid);
                true
            },
            Some(bound) => bound == pid,
        }
    }

    /// Record an event; returns whether the lifecycle moved.
    pub fn apply(&mut self, transition: Transition) -> (moved: bool)
        ensures
            final(self)@ == applied(old(self)@, transition@),
            moved == (final(self)@.lifecycle != old(self)@.lifecycle),
            final(self).name@ == old(self).name@,
    {
        let respawn = match (&transition, &self.lifecycle) {
            (Transition::Spawned, Lifecycle::Idle) => false,
            (Transition::Spawned, _) => true,
            _ => false,
        };
        if respawn && self.restarts < u32::MAX {
            self.restarts = self.restarts + 1;
        }
        self.lifecycle.apply(transition)
    }

    /// Report the adopted process's handshake state while adoption is active;
    /// otherwise report the supervised lifecycle state.
    pub fn phase(&self) -> (r: PluginPhase)
        ensures
            r == record_phase(self@),
    {
        if !self.adopted {
            return self.lifecycle.phase(self.is_connected());
        }
        if self.is_connected() {
            PluginPhase::Running
        } else {
            PluginPhase::Starting
        }
    }

    /// Project lifecycle and adoption state into the plugins topic.
    pub fn status(&self) -> (r: PluginStatus)
        ensures
            status_of(self.name@, self@, r),
    {
        let detail = if self.adopted {
            Self::adopted_text().to_owned()
        } else {
            self.lifecycle.detail().to_owned()
        };
        PluginStatus {
            plugin: self.name.clone(),
            phase: self.phase(),
            restarts: self.restarts,
            last_exit_code: self.lifecycle.exit_code(),
            detail,
        }
    }
}

/// How many of `events` are spawns.
pub open spec fn spawn_count(events: Seq<TransitionView>) -> nat
    decreases events.len(),
{
    if events.len() == 0 {
        0
    } else {
        spawn_count(events.drop_last()) + (if events.last() is Spawned { 1nat } else { 0nat })
    }
}

/// A record after a run of events, applied in order.
pub open spec fn applied_all(r: PluginRecordView, events: Seq<TransitionView>) -> PluginRecordView
    decreases events.len(),
{
    if events.len() == 0 {
        r
    } else {
        applied(applied_all(r, events.drop_last()), events.last())
    }
}

/// Restarts count respawns: the first spawn of a plugin that never ran is
/// no restart; a spawn of one that ran (or tried to) is one more; any other
/// event leaves the count alone.
pub proof fn restarts_count_respawns(r: PluginRecordView, t: TransitionView)
    ensures
        (t is Spawned) && (r.lifecycle is Idle) ==> applied(r, t).restarts == r.restarts,
        (t is Spawned) && !(r.lifecycle is Idle) && r.restarts < u32::MAX ==> applied(r, t).restarts == r.restarts + 1,
        !(t is Spawned) ==> applied(r, t).restarts == r.restarts,
        applied(r, t).restarts >= r.restarts,
{
}

/// Over a plugin's life: starting from a record that never ran and has no
/// restarts, the count after any run of events is the number of spawns, less
/// the first one when the plugin's first event was its spawn.
pub proof fn restarts_are_spawns_after_the_first(r: PluginRecordView, events: Seq<TransitionView>)
    requires
        r.lifecycle is Idle,
        r.restarts == 0,
        events.len() < u32::MAX,
    ensures
        applied_all(r, events).restarts == spawn_count(events) - (if events.len() > 0 && events[0] is Spawned { 1int } else { 0int }),
        events.len() > 0 ==> !(applied_all(r, events).lifecycle is Idle),
    decreases events.len(),
{
    if events.len() > 0 {
        let init = events.drop_last();
        restarts_are_spawns_after_the_first(r, init);
        lemma_spawn_count_bound(init);
        if init.len() > 0 {
            assert(init[0] == events[0]);
        }
    }
}

proof fn lemma_spawn_count_bound(events: Seq<TransitionView>)
    ensures
        spawn_count(events) <= events.len(),
    decreases events.len(),
{
    if events.len() > 0 {
        lemma_spawn_count_bound(events.drop_last());
    }
}

} // verus!
