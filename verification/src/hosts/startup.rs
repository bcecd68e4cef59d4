//! Startup results and restart eligibility for one configured provider.
//!
//! Times are nanoseconds on the daemon's monotonic clock.
use vstd::prelude::*;
use crate::refusal::{ErrorCode, Refusal};

verus! {

/// When a persistent host is started.
#[derive(Debug, Clone, Copy, PartialEq, Eq, Structural)]
pub enum StartPolicy {
    Eager,
    OnDemand,
}

/// Whether a host's process serves one invocation or stays running.
#[derive(Debug, Clone, Copy, PartialEq, Eq, Structural)]
pub enum Lifetime {
    OneShot,
    Persistent(StartPolicy),
}

/// The phase of one command process, as the table reports it.
#[derive(Debug, Clone, Copy, PartialEq, Eq, Structural)]
pub enum ProcessPhase {
    Starting,
    Running,
    Stopping,
}

/// The phase of a configured host as a whole.
#[derive(Debug, Clone, Copy, PartialEq, Eq, Structural)]
pub enum CommandHostPhase {
    Idle,
    Starting,
    Running,
    Stopping,
    Backoff,
    Failed,
}

/// The restart delays a host waits between starts: the delay after the
/// `k`th consecutive start is `delays[min(k, len - 1)]`, and a start at least
/// `healthy` after the previous one begins the sequence again.
#[derive(Debug, Clone)]
pub struct BackoffSchedule {
    pub healthy: u64,
    pub delays: Vec<u64>,
}

/// The delay for the `attempt`th consecutive start.
pub open spec fn delay_for(delays: Seq<u64>, attempt: u32) -> u64
    recommends
        delays.len() > 0,
{
    if attempt < delays.len() {
        delays[attempt as int]
    } else {
        delays[delays.len() - 1]
    }
}

/// Whether a start at `now` may be attempted: no backoff is pending.
pub open spec fn may_start(next: Option<u64>, now: u64) -> bool {
    !(next matches Some(n) && now < n)
}

/// The consecutive-start count a start at `now` counts from.
pub open spec fn attempt_from(attempt: u32, last: Option<u64>, now: u64, healthy: u64) -> u32 {
    match last {
        Some(l) => if now >= l && now - l >= healthy { 0 } else { attempt },
        None => attempt,
    }
}

/// Milliseconds, rounded up, until `next`; none once it has passed.
pub open spec fn retry_after_spec(next: Option<u64>, now: u64) -> Option<u64> {
    match next {
        Some(n) => if n > now {
            Some((((n - now) + 999_999) / 1_000_000) as u64)
        } else {
            None
        },
        None => None,
    }
}

/// The host's phase: live processes first, then a pending backoff, then the
/// last failure; an eager host with nothing running is about to start.
pub open spec fn phase_spec(
    processes: Seq<ProcessPhase>,
    lifetime: Lifetime,
    retry: Option<u64>,
    failed: bool,
) -> CommandHostPhase {
    if exists|i: int| 0 <= i < processes.len() && processes[i] == ProcessPhase::Running {
        CommandHostPhase::Running
    } else if exists|i: int| 0 <= i < processes.len() && processes[i] == ProcessPhase::Starting {
        CommandHostPhase::Starting
    } else if processes.len() > 0 {
        CommandHostPhase::Stopping
    } else if retry is Some {
        CommandHostPhase::Backoff
    } else if failed {
        CommandHostPhase::Failed
    } else if lifetime == Lifetime::Persistent(StartPolicy::Eager) {
        CommandHostPhase::Starting
    } else {
        CommandHostPhase::Idle
    }
}

/// The longest startup failure text kept, in characters.
pub const ERROR_LIMIT: usize = 512;

/// Startup results and restart eligibility for one provider.
#[derive(Debug)]
pub struct Startup {
    pub attempt: u32,
    pub last: Option<u64>,
    pub next: Option<u64>,
    pub error: Option<String>,
}

impl Startup {
    /// Nothing started, nothing failed.
    pub fn new() -> (r: Self)
        ensures
            r.attempt == 0,
            r.last is None,
            r.next is None,
            r.error is None,
    {
        Startup { attempt: 0, last: None, next: None, error: None }
    }

    /// Claim the right to start a process at `now`, or refuse while the
    /// restart backoff is pending.
    pub fn reserve(&mut self, now: u64, schedule: &BackoffSchedule) -> (r: Result<(), Refusal>)
        requires
            schedule.delays.len() > 0,
            forall|i: int| 0 <= i < schedule.delays.len() ==> now + schedule.delays[i] <= u64::MAX,
        ensures
            r is Ok <==> may_start(old(self).next, now),
            r matches Err(e) ==> e.code == ErrorCode::Unavailable
                && e.message@ == "command host is waiting for restart backoff"@,
            r is Err ==> *final(self) == *old(self),
            r is Ok ==> {
                let from = attempt_from(old(self).attempt, old(self).last, now, schedule.healthy);
                &&& final(self).last == Some(now)
                &&& final(self).next == Some((now + delay_for(schedule.delays@, from)) as u64)
                &&& final(self).attempt == (if from < u32::MAX { (from + 1) as u32 } else { from })
                &&& final(self).error == old(self).error
            },
    {
        if let Some(next) = self.next {
            if now < next {
                return Err(Refusal::unavailable("command host is waiting for restart backoff".to_owned()));
            }
        }
        let mut attempt = self.attempt;
        if let Some(last) = self.last {
            if now >= last && now - last >= schedule.healthy {
                attempt = 0;
            }
        }
        let count = schedule.delays.len();
        let delay = if (attempt as usize) < count {
            schedule.delays[attempt as usize]
        } else {
            schedule.delays[count - 1]
        };
        proof {
            if (attempt as usize) < count {
                assert(delay == schedule.delays@[attempt as int]);
            } else {
                assert(delay == schedule.delays@[count - 1]);
            }
        }
        self.last = Some(now);
        self.next = Some(now + delay);
        self.attempt = if attempt < u32::MAX { attempt + 1 } else { attempt };
        Ok(())
    }

    /// Remember why the last start failed, at most `ERROR_LIMIT` characters
    /// of it.
    pub fn failed(&mut self, message: &str)
        ensures
            final(self).error matches Some(e) && e@ == message@.take(
                if ERROR_LIMIT < message@.len() { ERROR_LIMIT as int } else { message@.len() as int },
            ),
            final(self).attempt == old(self).attempt,
            final(self).last == old(self).last,
            final(self).next == old(self).next,
    {
        self.error = Some(crate::text::truncated(message, ERROR_LIMIT));
    }

    /// A process connected: the last failure no longer stands.
    pub fn succeeded(&mut self)
        ensures
            final(self).error is None,
            final(self).attempt == old(self).attempt,
            final(self).last == old(self).last,
            final(self).next == old(self).next,
    {
        self.error = None;
    }

    /// Why the last start failed, if it did.
    pub fn error(&self) -> (r: Option<&str>)
        ensures
            match self.error {
                Some(e) => r matches Some(t) && t@ == e@,
                None => r is None,
            },
    {
        match &self.error {
            Some(e) => Some(e.as_str()),
            None => None,
        }
    }

    /// Milliseconds until the backoff ends, rounded up.
    pub fn retry_after(&self, now: u64) -> (r: Option<u64>)
        ensures
            r == retry_after_spec(self.next, now),
    {
        match self.next {
            Some(next) => if next > now {
                let wait = next - now;
                Some(wait / 1_000_000 + if wait % 1_000_000 == 0 { 0 } else { 1 })
            } else {
                None
            },
            None => None,
        }
    }

    /// The host's phase given its live processes.
    pub fn phase(&self, processes: &Vec<ProcessPhase>, lifetime: Lifetime, now: u64) -> (r: CommandHostPhase)
        ensures
            r == phase_spec(processes@, lifetime, retry_after_spec(self.next, now), self.error is Some),
    {
        let mut running = false;
        let mut starting = false;
        let mut i: usize = 0;
        while i < processes.len()
            invariant
                i <= processes.len(),
                running <==> exists|j: int| 0 <= j < i && processes@[j] == ProcessPhase::Running,
                starting <==> exists|j: int| 0 <= j < i && processes@[j] == ProcessPhase::Starting,
            decreases processes.len() - i,
        {
            match processes[i] {
                ProcessPhase::Running => running = true,
                ProcessPhase::Starting => starting = true,
                ProcessPhase::Stopping => {},
            }
            i = i + 1;
        }
        if running {
            CommandHostPhase::Running
        } else if starting {
            CommandHostPhase::Starting
        } else if processes.len() > 0 {
            CommandHostPhase::Stopping
        } else if self.retry_after(now).is_some() {
            CommandHostPhase::Backoff
        } else if self.error.is_some() {
            CommandHostPhase::Failed
        } else if lifetime == Lifetime::Persistent(StartPolicy::Eager) {
            CommandHostPhase::Starting
        } else {
            CommandHostPhase::Idle
        }
    }
}

} // verus!
