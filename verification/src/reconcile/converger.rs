//! The one thing that converges, as decisions: what a pass has to do, how
//! requests that arrive together merge into one pass, and when a pass has to
//! reload the build or be retried.
//!
//! The task that runs passes, the wake-up it waits on and the timer that
//! retries belong to whoever drives it; they ask these types what to do.
use vstd::prelude::*;

verus! {

/// What a pass has to do. Merging is a union: a reload asked for while a
/// plain convergence is pending upgrades the pending one rather than queuing
/// behind it.
#[derive(Debug, Clone, Copy, Default, PartialEq, Eq, Structural)]
pub struct Work {
    /// Re-read the built state: what was built, what it is for, and the
    /// manifests the daemon vouches for.
    pub reload: bool,
}

/// The union of two requests for work.
pub open spec fn merged(a: Work, b: Work) -> Work {
    Work { reload: a.reload || b.reload }
}

impl Work {
    /// Plan against what is already loaded.
    pub fn converge() -> (r: Self)
        ensures
            !r.reload,
    {
        Work { reload: false }
    }

    /// A build landed; everything derived from the state dir is stale.
    pub fn rebuild() -> (r: Self)
        ensures
            r.reload,
    {
        Work { reload: true }
    }

    pub fn merge(self, other: Self) -> (r: Self)
        ensures
            r == merged(self, other),
    {
        Work { reload: self.reload || other.reload }
    }
}

/// Merging is a union: it does not depend on order or grouping, and merging
/// the same work twice changes nothing.
pub proof fn merge_is_a_union(a: Work, b: Work, c: Work)
    ensures
        merged(a, b) == merged(b, a),
        merged(merged(a, b), c) == merged(a, merged(b, c)),
        merged(a, a) == a,
        merged(a, Work { reload: false }) == a,
{
}

/// What is pending after a request: whatever was pending absorbs it.
pub open spec fn enqueued(pending: Option<Work>, work: Work) -> Option<Work> {
    Some(match pending {
        Some(queued) => merged(queued, work),
        None => work,
    })
}

/// What is pending after requests arrive one after another.
pub open spec fn enqueued_all(pending: Option<Work>, requests: Seq<Work>) -> Option<Work>
    decreases requests.len(),
{
    if requests.len() == 0 {
        pending
    } else {
        enqueued(enqueued_all(pending, requests.drop_last()), requests.last())
    }
}

/// The queue of pending work: at most one pass, however many triggers.
#[derive(Debug, Default)]
pub struct Queue {
    pending: Option<Work>,
}

impl Queue {
    pub closed spec fn pending_work(&self) -> Option<Work> {
        self.pending
    }

    pub fn new() -> (r: Self)
        ensures
            r.pending_work() is None,
    {
        Queue { pending: None }
    }

    /// Record a request. Whatever was pending absorbs it.
    pub fn push(&mut self, work: Work)
        ensures
            final(self).pending_work() == enqueued(old(self).pending_work(), work),
    {
        self.pending = Some(match self.pending {
            Some(queued) => queued.merge(work),
            None => work,
        });
    }

    /// The pass to run now, if one was asked for; it answers every request
    /// made before it.
    pub fn take(&mut self) -> (r: Option<Work>)
        ensures
            r == old(self).pending_work(),
            final(self).pending_work() is None,
    {
        let r = self.pending;
        self.pending = None;
        r
    }
}

/// Triggers that arrive together are one pass: however many requests reach
/// an idle queue before the pass is taken, one pass is pending, and it
/// reloads exactly when one of them asked it to.
pub proof fn one_pass_answers_every_request(requests: Seq<Work>)
    requires
        requests.len() > 0,
    ensures
        enqueued_all(None, requests) == Some(Work { reload: exists|i: int| 0 <= i < requests.len() && (#[trigger] requests[i]).reload }),
    decreases requests.len(),
{
    let init = requests.drop_last();
    if init.len() == 0 {
        assert(enqueued_all(None, init) is None);
        if requests[0].reload {
            assert(requests[0].reload);
        }
    } else {
        one_pass_answers_every_request(init);
        if exists|i: int| 0 <= i < init.len() && (#[trigger] init[i]).reload {
            let i = choose|i: int| 0 <= i < init.len() && (#[trigger] init[i]).reload;
            assert(requests[i] == init[i]);
        }
        if exists|i: int| 0 <= i < requests.len() && (#[trigger] requests[i]).reload {
            let i = choose|i: int| 0 <= i < requests.len() && (#[trigger] requests[i]).reload;
            if i < init.len() {
                assert(init[i] == requests[i]);
            }
        }
    }
}

/// How the build reload of a pass ended.
#[derive(Debug, Clone, Copy, PartialEq, Eq, Structural)]
pub enum Reload {
    /// A build was read and activated.
    Activated,
    /// A build was read, but activating it failed; it stays pending.
    ActivationFailed,
    /// Nothing has been built yet.
    NothingBuilt,
    /// The build could not be read; the running one is kept.
    Rejected,
}

/// What passes owe each other: a build whose activation is still pending, and
/// whether the next pass comes on a timer rather than a request.
#[derive(Debug, Clone, Copy, Default, PartialEq, Eq, Structural)]
pub struct Passes {
    pub retry: bool,
    pub reload_pending: bool,
}

impl Passes {
    /// Nothing owed.
    pub fn new() -> (r: Self)
        ensures
            !r.retry,
            !r.reload_pending,
    {
        Passes { retry: false, reload_pending: false }
    }

    /// Whether this pass has to reload the build first: it was asked to, or
    /// an earlier activation is still pending.
    pub fn needs_reload(&self, work: Work) -> (r: bool)
        ensures
            r == (work.reload || self.reload_pending),
    {
        work.reload || self.reload_pending
    }

    /// Record how the reload went. Only a failed activation stays pending;
    /// a fresh machine or a broken build is not retried on a timer.
    pub fn reloaded(&mut self, outcome: Reload)
        ensures
            *final(self) == after_reload(*old(self), outcome),
    {
        self.reload_pending = match outcome {
            Reload::ActivationFailed => true,
            _ => false,
        };
    }

    /// Record how the convergence went. The next pass comes on a timer when
    /// activation is pending or the convergence failed.
    pub fn converged(&mut self, ok: bool)
        ensures
            *final(self) == after_convergence(*old(self), ok),
    {
        self.retry = self.reload_pending || !ok;
    }
}

/// What passes owe each other after a reload.
pub open spec fn after_reload(p: Passes, outcome: Reload) -> Passes {
    Passes { reload_pending: outcome == Reload::ActivationFailed, ..p }
}

/// What passes owe each other after a convergence.
pub open spec fn after_convergence(p: Passes, ok: bool) -> Passes {
    Passes { retry: p.reload_pending || !ok, ..p }
}

/// A pass whose activation failed is followed by a timed retry that reloads
/// the build again, whatever the next request and however the convergence
/// went; a pass whose reload did not fail that way and whose convergence
/// succeeded owes nothing.
pub proof fn failed_activation_is_retried(p: Passes, ok: bool, next: Work)
    ensures
        after_convergence(after_reload(p, Reload::ActivationFailed), ok).retry,
        after_convergence(after_reload(p, Reload::ActivationFailed), ok).reload_pending,
        next.reload || after_convergence(after_reload(p, Reload::ActivationFailed), ok).reload_pending,
        forall|outcome: Reload| outcome != Reload::ActivationFailed ==> !#[trigger] after_convergence(after_reload(p, outcome), true).retry
            && !after_convergence(after_reload(p, outcome), true).reload_pending,
{
}

/// What reading the published build found.
#[derive(Debug, Clone, Copy, PartialEq, Eq, Structural)]
pub enum Published {
    /// A build that validates.
    Valid,
    /// No build has been published.
    Nothing,
    /// A build that does not validate.
    Broken,
}

/// Which build a reload adopts.
#[derive(Debug, Clone, Copy, PartialEq, Eq, Structural)]
pub enum Adopt {
    /// What the published generation gave (a build, nothing, or its error).
    Published,
    /// The recovery generation at this position, the first that validates.
    Recovery(usize),
}

/// The build a reload adopts: the published one while a build is running or
/// when it validates; otherwise, at startup, the first recovery generation
/// that validates (`recovery` says which do, in order); otherwise what the
/// published one gave.
pub fn adopt(running: bool, published: Published, recovery: &Vec<bool>) -> (r: Adopt)
    ensures
        running || published == Published::Valid ==> r == Adopt::Published,
        !(running || published == Published::Valid) ==> match r {
            Adopt::Published => forall|i: int| 0 <= i < recovery@.len() ==> !recovery@[i],
            Adopt::Recovery(i) => i < recovery@.len() && recovery@[i as int] && forall|j: int| 0 <= j < i ==> !recovery@[j],
        },
{
    if running || published == Published::Valid {
        return Adopt::Published;
    }
    let mut i: usize = 0;
    while i < recovery.len()
        invariant
            !(running || published == Published::Valid),
            i <= recovery@.len(),
            forall|j: int| 0 <= j < i ==> !recovery@[j],
        decreases recovery@.len() - i,
    {
        if recovery[i] {
            return Adopt::Recovery(i);
        }
        i = i + 1;
    }
    Adopt::Published
}

/// Whether a unit changed between two builds on what the descriptors say:
/// another manifest or other settings. Where neither changed, whether its
/// program did decides.
pub fn descriptor_changed(previous_hash: Option<&str>, next_hash: Option<&str>, previous_settings: &[u8], next_settings: &[u8]) -> (r: bool)
    ensures
        r == (match (previous_hash, next_hash) {
            (Some(a), Some(b)) => a@ != b@,
            (None, None) => false,
            _ => true,
        } || previous_settings@ != next_settings@),
{
    let same_manifest = match (previous_hash, next_hash) {
        (Some(a), Some(b)) => crate::text::text_eq(a, b),
        (None, None) => true,
        _ => false,
    };
    !same_manifest || !crate::text::bytes_equal(previous_settings, next_settings)
}

/// A changed unit held for development blocks activation: the first such
/// one, in the order given, refuses it.
pub fn activation_blocked(changed: &Vec<String>, adopted: &Vec<bool>) -> (r: Result<(), String>)
    requires
        changed@.len() == adopted@.len(),
    ensures
        r is Ok <==> (forall|i: int| 0 <= i < adopted@.len() ==> !adopted@[i]),
        r matches Err(m) ==> exists|i: int| 0 <= i < adopted@.len() && adopted@[i] && (forall|j: int| 0 <= j < i ==> !adopted@[j])
            && m@ == changed@[i]@ + " is held by omega dev; disconnect it before activating this build"@,
{
    let mut i: usize = 0;
    while i < changed.len()
        invariant
            changed@.len() == adopted@.len(),
            i <= changed@.len(),
            forall|j: int| 0 <= j < i ==> !adopted@[j],
        decreases changed@.len() - i,
    {
        if adopted[i] {
            let text = crate::refusal::compose("", changed[i].as_str(), " is held by omega dev; disconnect it before activating this build");
            proof {
                reveal_strlit("");
                assert(text@ =~= changed@[i as int]@ + " is held by omega dev; disconnect it before activating this build"@);
            }
            return Err(text);
        }
        i = i + 1;
    }
    Ok(())
}

} // verus!
