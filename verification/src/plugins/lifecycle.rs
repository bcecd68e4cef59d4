//! Where a plugin is in its life.
//!
//! Transitions are the only way to change lifecycle state. The plugins topic
//! projects that state so supervision and observers cannot report different
//! phases.
use vstd::prelude::*;

verus! {

/// The phase a plugin is reported in.
#[derive(Debug, Clone, Copy, PartialEq, Eq)]
pub enum PluginPhase {
    Unspecified,
    Starting,
    Running,
    Restarting,
    Failed,
    Stopped,
}

/// What is true of a plugin's process.
#[derive(Debug, Clone, PartialEq, Eq)]
pub enum Lifecycle {
    /// Built and known; nothing is running.
    Idle,
    /// A process was spawned for it.
    Starting,
    /// The process is up.
    Running,
    /// It exited, and the supervisor is waiting out the backoff.
    Restarting { exit: i32, detail: String },
    /// It could not be spawned at all.
    Failed { detail: String },
    /// Explicitly stopped; automatic restart is disabled.
    Stopped,
}

/// The mathematical value of a [`Lifecycle`]: details are character sequences.
pub enum LifecycleView {
    Idle,
    Starting,
    Running,
    Restarting { exit: i32, detail: Seq<char> },
    Failed { detail: Seq<char> },
    Stopped,
}

/// A thing that happened to a plugin. Transitions are named for the event, not
/// the destination: the state machine decides where an event leads.
#[derive(Debug, Clone, PartialEq, Eq)]
pub enum Transition {
    /// A process was spawned.
    Spawned,
    /// The spawn itself failed.
    Unspawnable(String),
    /// The process exited on its own.
    Exited { code: i32, detail: String },
    /// The supervisor is done with it: stopped, or the daemon is going down.
    Stopped,
}

pub enum TransitionView {
    Spawned,
    Unspawnable(Seq<char>),
    Exited { code: i32, detail: Seq<char> },
    Stopped,
}

impl View for Lifecycle {
    type V = LifecycleView;

    open spec fn view(&self) -> LifecycleView {
        match self {
            Lifecycle::Idle => LifecycleView::Idle,
            Lifecycle::Starting => LifecycleView::Starting,
            Lifecycle::Running => LifecycleView::Running,
            Lifecycle::Restarting { exit, detail } => LifecycleView::Restarting {
                exit: *exit,
                detail: detail@,
            },
            Lifecycle::Failed { detail } => LifecycleView::Failed { detail: detail@ },
            Lifecycle::Stopped => LifecycleView::Stopped,
        }
    }
}

impl View for Transition {
    type V = TransitionView;

    open spec fn view(&self) -> TransitionView {
        match self {
            Transition::Spawned => TransitionView::Spawned,
            Transition::Unspawnable(detail) => TransitionView::Unspawnable(detail@),
            Transition::Exited { code, detail } => TransitionView::Exited {
                code: *code,
                detail: detail@,
            },
            Transition::Stopped => TransitionView::Stopped,
        }
    }
}

/// Where an event leads from a state. A stopped plugin stays stopped until
/// something spawns it again; every other state follows the event.
pub open spec fn lifecycle_next(state: LifecycleView, event: TransitionView) -> LifecycleView {
    match (state, event) {
        (LifecycleView::Stopped, TransitionView::Spawned) => LifecycleView::Starting,
        (LifecycleView::Stopped, _) => LifecycleView::Stopped,
        (_, TransitionView::Spawned) => LifecycleView::Starting,
        (_, TransitionView::Unspawnable(detail)) => LifecycleView::Failed { detail },
        (_, TransitionView::Exited { code, detail }) => LifecycleView::Restarting {
            exit: code,
            detail,
        },
        (_, TransitionView::Stopped) => LifecycleView::Stopped,
    }
}

/// The phase a supervised lifecycle is reported in; a running process only
/// counts as running once it has completed its handshake.
pub open spec fn phase_of(state: LifecycleView, connected: bool) -> PluginPhase {
    match state {
        LifecycleView::Idle => PluginPhase::Unspecified,
        LifecycleView::Starting => PluginPhase::Starting,
        LifecycleView::Running => if connected {
            PluginPhase::Running
        } else {
            PluginPhase::Starting
        },
        LifecycleView::Restarting { .. } => PluginPhase::Restarting,
        LifecycleView::Failed { .. } => PluginPhase::Failed,
        LifecycleView::Stopped => PluginPhase::Stopped,
    }
}

pub open spec fn detail_of(state: LifecycleView) -> Seq<char> {
    match state {
        LifecycleView::Restarting { detail, .. } => detail,
        LifecycleView::Failed { detail } => detail,
        _ => Seq::empty(),
    }
}

pub open spec fn exit_code_of(state: LifecycleView) -> i32 {
    match state {
        LifecycleView::Restarting { exit, .. } => exit,
        LifecycleView::Failed { .. } => -1i32,
        LifecycleView::Idle => -1i32,
        _ => 0i32,
    }
}

/// The state a completed handshake leads to: a starting or running plugin is
/// running; an unsupervised one keeps its state.
pub open spec fn connected_next(state: LifecycleView) -> LifecycleView {
    match state {
        LifecycleView::Starting => LifecycleView::Running,
        LifecycleView::Running => LifecycleView::Running,
        other => other,
    }
}

fn same_text(a: &String, b: &String) -> (r: bool)
    ensures
        r == (a@ == b@),
{
    a.eq(b)
}

impl Lifecycle {
    /// A lifecycle with nothing running.
    pub fn new() -> (r: Self)
        ensures
            r@ == LifecycleView::Idle,
    {
        Lifecycle::Idle
    }

    /// Whether two lifecycles are the same state.
    pub fn same_as(&self, other: &Self) -> (r: bool)
        ensures
            r == (self@ == other@),
    {
        match (self, other) {
            (Lifecycle::Idle, Lifecycle::Idle) => true,
            (Lifecycle::Starting, Lifecycle::Starting) => true,
            (Lifecycle::Running, Lifecycle::Running) => true,
            (
                Lifecycle::Restarting { exit: a, detail: d },
                Lifecycle::Restarting { exit: b, detail: e },
            ) => *a == *b && same_text(d, e),
            (Lifecycle::Failed { detail: d }, Lifecycle::Failed { detail: e }) => same_text(d, e),
            (Lifecycle::Stopped, Lifecycle::Stopped) => true,
            _ => false,
        }
    }

    /// A copy of this state.
    pub fn duplicate(&self) -> (r: Self)
        ensures
            r@ == self@,
    {
        match self {
            Lifecycle::Idle => Lifecycle::Idle,
            Lifecycle::Starting => Lifecycle::Starting,
            Lifecycle::Running => Lifecycle::Running,
            Lifecycle::Restarting { exit, detail } => Lifecycle::Restarting {
                exit: *exit,
                detail: detail.clone(),
            },
            Lifecycle::Failed { detail } => Lifecycle::Failed { detail: detail.clone() },
            Lifecycle::Stopped => Lifecycle::Stopped,
        }
    }

    /// Apply an event. Returns whether the state moved, so a caller can
    /// publish only what changed.
    pub fn apply(&mut self, transition: Transition) -> (moved: bool)
        ensures
            final(self)@ == lifecycle_next(old(self)@, transition@),
            moved == (final(self)@ != old(self)@),
    {
        let next = match (&*self, transition) {
            (Lifecycle::Stopped, Transition::Spawned) => Lifecycle::Starting,
            (Lifecycle::Stopped, _) => {
                return false;
            },
            (_, Transition::Spawned) => Lifecycle::Starting,
            (_, Transition::Unspawnable(detail)) => Lifecycle::Failed { detail },
            (_, Transition::Exited { code, detail }) => Lifecycle::Restarting {
                exit: code,
                detail,
            },
            (_, Transition::Stopped) => Lifecycle::Stopped,
        };
        let moved = !next.same_as(self);
        *self = next;
        moved
    }

    /// Whether a process is up. A connected plugin is running; a spawned one
    /// that has not checked in yet is only starting.
    pub fn phase(&self, connected: bool) -> (r: PluginPhase)
        ensures
            r == phase_of(self@, connected),
    {
        match self {
            Lifecycle::Idle => PluginPhase::Unspecified,
            Lifecycle::Starting => PluginPhase::Starting,
            Lifecycle::Running => if connected {
                PluginPhase::Running
            } else {
                PluginPhase::Starting
            },
            Lifecycle::Restarting { .. } => PluginPhase::Restarting,
            Lifecycle::Failed { .. } => PluginPhase::Failed,
            Lifecycle::Stopped => PluginPhase::Stopped,
        }
    }

    /// The last failure, for a human reading `omega status`.
    pub fn detail(&self) -> (r: &str)
        ensures
            r@ == detail_of(self@),
    {
        match self {
            Lifecycle::Restarting { detail, .. } => detail.as_str(),
            Lifecycle::Failed { detail } => detail.as_str(),
            _ => {
                proof {
                    reveal_strlit("");
                }
                ""
            },
        }
    }

    /// The exit code of the last run, or -1 when it was signalled or never
    /// ran.
    pub fn exit_code(&self) -> (r: i32)
        ensures
            r == exit_code_of(self@),
    {
        match self {
            Lifecycle::Restarting { exit, .. } => *exit,
            Lifecycle::Failed { .. } => -1,
            Lifecycle::Idle => -1,
            _ => 0,
        }
    }

    pub fn is_stopped(&self) -> (r: bool)
        ensures
            r == (self@ is Stopped),
    {
        match self {
            Lifecycle::Stopped => true,
            _ => false,
        }
    }

    /// The process is up and has completed its handshake.
    pub fn connected(&mut self) -> (moved: bool)
        ensures
            final(self)@ == connected_next(old(self)@),
            moved == (old(self)@ is Starting),
    {
        match self {
            Lifecycle::Starting => {
                *self = Lifecycle::Running;
                true
            },
            Lifecycle::Running => false,
            _ => false,
        }
    }
}

/// A stopped plugin ignores every event but a spawn.
pub proof fn stopped_absorbs_all_but_spawn(event: TransitionView)
    requires
        !(event is Spawned),
    ensures
        lifecycle_next(LifecycleView::Stopped, event) == LifecycleView::Stopped,
{
}

/// Where a run of events leads, applied in order.
pub open spec fn after_events(state: LifecycleView, events: Seq<TransitionView>) -> LifecycleView
    decreases events.len(),
{
    if events.len() == 0 {
        state
    } else {
        lifecycle_next(after_events(state, events.drop_last()), events.last())
    }
}

/// Stopping disables restarts for good: from any state, a stop followed by
/// any number of events none of which is a spawn leaves the plugin stopped.
pub proof fn stopped_stays_stopped_until_spawned(state: LifecycleView, events: Seq<TransitionView>)
    requires
        forall|i: int| 0 <= i < events.len() ==> !(#[trigger] events[i] is Spawned),
    ensures
        after_events(lifecycle_next(state, TransitionView::Stopped), events) == LifecycleView::Stopped,
    decreases events.len(),
{
    if events.len() > 0 {
        let init = events.drop_last();
        assert forall|i: int| 0 <= i < init.len() implies !(#[trigger] init[i] is Spawned) by {
            assert(init[i] == events[i]);
        }
        stopped_stays_stopped_until_spawned(state, init);
        assert(!(events[events.len() - 1] is Spawned));
    }
}

/// A process that exits on its own is restarted, whatever its exit code
/// (a clean exit of 0 included), unless the plugin was stopped: the plugin
/// waits out the backoff reporting that exit code and its detail, and is
/// reported as restarting.
pub proof fn every_exit_leads_to_a_restart(state: LifecycleView, code: i32, detail: Seq<char>, connected: bool)
    requires
        !(state is Stopped),
    ensures
        lifecycle_next(state, TransitionView::Exited { code, detail }) is Restarting,
        exit_code_of(lifecycle_next(state, TransitionView::Exited { code, detail })) == code,
        detail_of(lifecycle_next(state, TransitionView::Exited { code, detail })) == detail,
        phase_of(lifecycle_next(state, TransitionView::Exited { code, detail }), connected) == PluginPhase::Restarting,
        lifecycle_next(state, TransitionView::Exited { code, detail }) != state || state is Restarting,
{
}

/// Every state a spawn reaches is starting, whatever came before.
pub proof fn spawn_always_starts(state: LifecycleView)
    ensures
        lifecycle_next(state, TransitionView::Spawned) == LifecycleView::Starting,
{
}

/// Completing a handshake twice is the same as completing it once.
pub proof fn connecting_is_idempotent(state: LifecycleView)
    ensures
        connected_next(connected_next(state)) == connected_next(state),
{
}

/// A connected, running plugin is reported running; an unconnected one is
/// reported starting.
pub proof fn running_is_reported_only_when_connected(connected: bool)
    ensures
        phase_of(LifecycleView::Running, connected) == (if connected {
            PluginPhase::Running
        } else {
            PluginPhase::Starting
        }),
{
}

} // verus!
