//! Starting command processes and settling what an execution returns.
use vstd::prelude::*;
use crate::hosts::calls::Pool;
use crate::hosts::processes::{holds, record_of, ProcessView, Processes};
use crate::hosts::startup::{attempt_from, may_start, BackoffSchedule, Lifetime, Startup, ERROR_LIMIT};
use crate::plugins::session::RequestError;
use crate::plugins::token::PluginToken;
use crate::refusal::{ErrorCode, Refusable, Refusal};

verus! {

/// What a start failure leaves as the host's last error.
pub open spec fn failure_text(message: Seq<char>) -> Seq<char> {
    message.take(if ERROR_LIMIT < message.len() { ERROR_LIMIT as int } else { message.len() as int })
}

/// Begin starting a process for a host: refused while the daemon stops, while
/// a persistent host's restart backoff runs, when the plugin name is not
/// one, when every process slot is taken, or when no process can be
/// prepared. Slot and table entry are held from here until the process is
/// reaped; a refusal after the backoff check is the host's last error.
pub fn begin_start(
    stopping: bool,
    lifetime: Lifetime,
    startup: &mut Startup,
    schedule: &BackoffSchedule,
    now: u64,
    name: Result<(), String>,
    slots: &mut Pool,
    processes: &mut Processes,
    host: String,
    invocation: Option<u64>,
    manifest_hash: String,
) -> (r: Result<(u64, PluginToken), Refusal>)
    requires
        schedule.delays.len() > 0,
        forall|i: int| 0 <= i < schedule.delays.len() ==> now + schedule.delays[i] <= u64::MAX,
        old(slots).wf(),
        old(processes).wf(),
    ensures
        final(slots).wf(),
        final(processes).wf(),
        final(slots).capacity() == old(slots).capacity(),
        stopping ==> (r matches Err(e) && e.code == ErrorCode::Unavailable && e.message@ == "daemon is stopping"@
            && *final(startup) == *old(startup)),
        !stopping && (lifetime is Persistent) && !may_start(old(startup).next, now) ==> (r matches Err(e)
            && e.code == ErrorCode::Unavailable && e.message@ == "command host is waiting for restart backoff"@
            && *final(startup) == *old(startup)),
        r is Err ==> final(slots).available() == old(slots).available()
            && final(processes).records() == old(processes).records(),
        !stopping && ((lifetime is OneShot) || may_start(old(startup).next, now)) ==> {
            &&& (lifetime is Persistent) ==> final(startup).next == Some(
                (now + crate::hosts::startup::delay_for(
                    schedule.delays@,
                    attempt_from(old(startup).attempt, old(startup).last, now, schedule.healthy),
                )) as u64,
            ) && final(startup).last == Some(now)
            &&& (lifetime is OneShot) ==> final(startup).next == old(startup).next && final(startup).last == old(startup).last
            &&& match name {
                Err(reason) => r matches Err(e) && e.code == ErrorCode::InvalidArgument && e.message@ == reason@
                    && final(startup).error == old(startup).error,
                Ok(()) => if old(slots).available() == 0 {
                    &&& r matches Err(e) && e.code == ErrorCode::ResourceExhausted
                        && e.message@ == "command process capacity exhausted"@
                    &&& final(startup).error matches Some(t) && t@ == failure_text("command process capacity exhausted"@)
                } else {
                    &&& r matches Err(e) ==> (final(startup).error matches Some(t) && t@ == failure_text(e.message@))
                    &&& old(processes).last_id() == u64::MAX ==> (r matches Err(e) && e.code == ErrorCode::ResourceExhausted
                        && e.message@ == "process identities exhausted"@)
                    &&& old(processes).last_id() < u64::MAX ==> (r matches Err(e) ==> e.code == ErrorCode::Unavailable
                        && exists|reason: Seq<char>| e.message@ == "cannot generate a secure plugin identity: "@ + reason)
                    &&& r matches Ok((id, token)) ==> id == old(processes).last_id() + 1
                        && final(slots).available() == old(slots).available() - 1
                        && final(startup).error == old(startup).error
                        && final(processes).records() == old(processes).records().push(ProcessView {
                            id,
                            host: host@,
                            invocation,
                            manifest_hash: manifest_hash@,
                            token: token@,
                            pid: None,
                            connected: false,
                            stopping: false,
                        })
                },
            }
        },
{
    if stopping {
        return Err(Refusal::unavailable("daemon is stopping".to_owned()));
    }
    match lifetime {
        Lifetime::Persistent(_) => {
            startup.reserve(now, schedule)?;
        },
        Lifetime::OneShot => {},
    }
    if let Err(reason) = name {
        return Err(Refusal::invalid(reason));
    }
    if !slots.take(1) {
        let refusal = Refusal::exhausted("command process capacity exhausted".to_owned());
        startup.failed(refusal.message.as_str());
        return Err(refusal);
    }
    match processes.prepare(host, invocation, manifest_hash) {
        Ok(prepared) => Ok(prepared),
        Err(refusal) => {
            startup.failed(refusal.message.as_str());
            slots.give(1);
            Err(refusal)
        },
    }
}

/// The process could not be spawned: the failure is the host's last error,
/// the process is forgotten and its slot given back.
pub fn spawn_failed(startup: &mut Startup, slots: &mut Pool, processes: &mut Processes, id: u64, message: String) -> (r: Refusal)
    requires
        old(slots).wf(),
        old(slots).available() < old(slots).capacity(),
        old(processes).wf(),
    ensures
        final(slots).wf(),
        final(slots).available() == old(slots).available() + 1,
        final(processes).wf(),
        !holds(final(processes).records(), id),
        final(startup).error matches Some(t) && t@ == failure_text(message@),
        r.code == ErrorCode::Unavailable,
        r.message@ == message@,
{
    startup.failed(message.as_str());
    processes.remove(id);
    slots.give(1);
    Refusal::unavailable(message)
}

/// A process failed before its handshake: it is told to stop and, unless it
/// had connected or was already stopping, the failure is the host's last
/// error.
pub fn startup_failed(startup: &mut Startup, processes: &mut Processes, id: u64, message: &str) -> (counted: bool)
    requires
        old(processes).wf(),
    ensures
        final(processes).wf(),
        counted == (holds(old(processes).records(), id) && !record_of(old(processes).records(), id).connected
            && !record_of(old(processes).records(), id).stopping),
        counted ==> (final(startup).error matches Some(t) && t@ == failure_text(message@)),
        !counted ==> *final(startup) == *old(startup) && final(processes).records() == old(processes).records(),
{
    let counted = processes.fail_startup(id);
    if counted {
        startup.failed(message);
    }
    counted
}

/// A process connected: it holds a session and the host's last failure no
/// longer stands.
pub fn connected(startup: &mut Startup, processes: &mut Processes, id: u64) -> (r: Result<(), Refusal>)
    requires
        old(processes).wf(),
    ensures
        final(processes).wf(),
        r is Ok ==> final(startup).error is None,
        r is Err ==> *final(startup) == *old(startup) && final(processes).records() == old(processes).records(),
        r is Ok <==> (holds(old(processes).records(), id) && !record_of(old(processes).records(), id).connected
            && !record_of(old(processes).records(), id).stopping),
{
    processes.connect(id)?;
    startup.succeeded();
    Ok(())
}

/// A process was reaped: it is forgotten and its slot given back.
pub fn reaped(slots: &mut Pool, processes: &mut Processes, id: u64)
    requires
        old(slots).wf(),
        old(slots).available() < old(slots).capacity(),
        old(processes).wf(),
    ensures
        final(slots).wf(),
        final(slots).available() == old(slots).available() + 1,
        final(processes).wf(),
        !holds(final(processes).records(), id),
{
    processes.remove(id);
    slots.give(1);
}

/// The answer an execution's request gave: none in time (`None`) or a
/// connection that ended or timed out leaves the outcome unknown, since the
/// command may have run; any other failure is refused as the session
/// refuses it.
pub fn execution_outcome<O>(result: Option<Result<O, RequestError>>) -> (r: Result<O, Refusal>)
    ensures
        result is None ==> (r matches Err(e) && e.code == ErrorCode::OutcomeUnknown
            && e.message@ == "command timed out; effects may have executed"@),
        result matches Some(Err(error)) && ((error is Timeout) || (error is Absent)) ==> (r matches Err(e)
            && e.code == ErrorCode::OutcomeUnknown
            && e.message@ == "command connection ended or timed out; effects may have executed"@),
        result matches Some(Err(RequestError::Refused { source, .. })) ==> (r matches Err(e) && e.code == source.code
            && e.message@ == source.message@),
        result matches Some(Err(error)) && (error is Full) ==> (r matches Err(e) && e.code == ErrorCode::ResourceExhausted),
        result matches Some(Err(error)) && (error is TooLarge) ==> (r matches Err(e) && e.code == ErrorCode::PayloadTooLarge),
        result matches Some(Ok(o)) ==> r == Ok::<O, Refusal>(o),
{
    match result {
        None => Err(Refusal::new(
            ErrorCode::OutcomeUnknown,
            "command timed out; effects may have executed".to_owned(),
        )),
        Some(Ok(outcome)) => Ok(outcome),
        Some(Err(error)) => match error {
            RequestError::Timeout(_) | RequestError::Absent(_) => Err(Refusal::new(
                ErrorCode::OutcomeUnknown,
                "command connection ended or timed out; effects may have executed".to_owned(),
            )),
            _ => Err(error.refusal()),
        },
    }
}

/// Whether the process that served an execution is stopped afterwards: a
/// one-shot process always is, a persistent one when the outcome is unknown,
/// the deadline passed or it became unavailable.
pub open spec fn retires_spec(lifetime: Lifetime, failure: Option<ErrorCode>) -> bool {
    (lifetime is OneShot) || (failure matches Some(code) && (code == ErrorCode::OutcomeUnknown || code
        == ErrorCode::DeadlineExceeded || code == ErrorCode::Unavailable))
}

pub fn retires<A>(lifetime: Lifetime, answer: &Result<A, Refusal>) -> (r: bool)
    ensures
        r == retires_spec(
            lifetime,
            match answer {
                Ok(_) => None,
                Err(e) => Some(e.code),
            },
        ),
{
    match lifetime {
        Lifetime::OneShot => true,
        Lifetime::Persistent(_) => match answer {
            Ok(_) => false,
            Err(e) => e.code == ErrorCode::OutcomeUnknown || e.code == ErrorCode::DeadlineExceeded || e.code
                == ErrorCode::Unavailable,
        },
    }
}

/// Whether a persistent host needs a new process before an execution: it
/// holds none, or the one it holds was told to stop.
pub fn needs_process(held: Option<bool>) -> (r: bool)
    ensures
        r == (held matches Some(stopping) ==> stopping),
{
    match held {
        None => true,
        Some(stopping) => stopping,
    }
}

} // verus!
