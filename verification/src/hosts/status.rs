//! What is reported of a configured host.
use vstd::prelude::*;
use crate::hosts::config::HostPolicy;
use crate::hosts::invocations::{active_count, queued_count, recent_failures, ExecutionSnapshot, Invocations, RECENT_FAILURES};
use crate::hosts::processes::{statuses_of, ProcessStatus, Processes};
use crate::hosts::startup::{phase_spec, retry_after_spec, CommandHostPhase, Lifetime, StartPolicy, Startup};

verus! {

/// One configured host's status.
#[derive(Debug)]
pub struct HostStatus {
    pub id: String,
    /// "one-shot" or "persistent".
    pub lifetime: &'static str,
    pub phase: CommandHostPhase,
    /// Started without waiting for a call.
    pub eager: bool,
    pub retry_after_ms: Option<u64>,
    /// Empty when the last start did not fail.
    pub startup_error: String,
    pub processes: Vec<ProcessStatus>,
    pub concurrency: usize,
    pub queue_capacity: usize,
    pub queued_calls: usize,
    pub active_calls: usize,
    pub recent_failures: Vec<ExecutionSnapshot>,
}

/// The status of the host with `policy` at `now`.
pub fn host_status(policy: &HostPolicy, startup: &Startup, processes: &Processes, invocations: &Invocations, now: u64) -> (r: HostStatus)
    requires
        invocations.wf(),
    ensures
        r.id@ == policy.id@,
        r.lifetime@ == (if policy.lifetime is OneShot { "one-shot"@ } else { "persistent"@ }),
        r.processes@ == statuses_of(processes.records(), policy.id@),
        r.phase == phase_spec(r.processes@.map_values(|p: ProcessStatus| p.phase), policy.lifetime, retry_after_spec(startup.next, now), startup.error is Some),
        r.eager == (policy.lifetime == Lifetime::Persistent(StartPolicy::Eager)),
        r.retry_after_ms == retry_after_spec(startup.next, now),
        r.startup_error@ == match startup.error {
            Some(e) => e@,
            None => Seq::<char>::empty(),
        },
        r.concurrency == policy.execution.concurrency,
        r.queue_capacity == policy.execution.queue_capacity,
        r.queued_calls == queued_count(invocations.entries(), policy.id@),
        r.active_calls == active_count(invocations.entries(), policy.id@),
        r.recent_failures@.map_values(|x: ExecutionSnapshot| x@) == recent_failures(
            invocations.completed(),
            invocations.entries(),
            policy.id@,
            now,
            RECENT_FAILURES as nat,
        ),
{
    let listed = processes.inspect(policy.id.as_str());
    let mut phases: Vec<crate::hosts::startup::ProcessPhase> = Vec::new();
    let mut k: usize = 0;
    while k < listed.len()
        invariant
            k <= listed@.len(),
            phases@ == listed@.take(k as int).map_values(|p: ProcessStatus| p.phase),
        decreases listed@.len() - k,
    {
        phases.push(listed[k].phase);
        proof {
            assert(listed@.take(k + 1).map_values(|p: ProcessStatus| p.phase) =~= listed@.take(k as int).map_values(
                |p: ProcessStatus| p.phase,
            ).push(listed@[k as int].phase));
        }
        k = k + 1;
    }
    proof {
        assert(listed@.take(listed@.len() as int) =~= listed@);
    }
    let phase = startup.phase(&phases, policy.lifetime, now);
    let activity = invocations.activity(policy.id.as_str(), now);
    let lifetime = match policy.lifetime {
        Lifetime::OneShot => "one-shot",
        Lifetime::Persistent(_) => "persistent",
    };
    let startup_error = match startup.error() {
        Some(e) => e.to_owned(),
        None => String::new(),
    };
    HostStatus {
        id: policy.id.clone(),
        lifetime,
        phase,
        eager: policy.lifetime == Lifetime::Persistent(StartPolicy::Eager),
        retry_after_ms: startup.retry_after(now),
        startup_error,
        processes: listed,
        concurrency: policy.execution.concurrency,
        queue_capacity: policy.execution.queue_capacity,
        queued_calls: activity.queued,
        active_calls: activity.active,
        recent_failures: activity.failures,
    }
}

} // verus!
