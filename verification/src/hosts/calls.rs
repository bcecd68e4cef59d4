//! Admission of calls to a configured host, the capacity they hold, and the
//! order its queue releases them in.
//!
//! Times are nanoseconds on the daemon's monotonic clock.
use vstd::prelude::*;
use crate::hosts::invocations::{completes, completion_of, Completion, EntryView, Invocations};
use crate::manifest::{CommandEndpoint, EndpointView};
use crate::refusal::{ErrorCode, Refusal};

verus! {

/// A counted capacity: units are taken while work holds them and given back
/// when it lets go.
#[derive(Debug)]
pub struct Pool {
    available: usize,
    capacity: usize,
}

impl Pool {
    pub closed spec fn available(&self) -> nat {
        self.available as nat
    }

    pub closed spec fn capacity(&self) -> nat {
        self.capacity as nat
    }

    pub open spec fn wf(&self) -> bool {
        self.available() <= self.capacity()
    }

    /// A pool with all `capacity` units free.
    pub fn new(capacity: usize) -> (r: Self)
        ensures
            r.wf(),
            r.available() == capacity,
            r.capacity() == capacity,
    {
        Pool { available: capacity, capacity }
    }

    /// Units free now.
    pub fn free(&self) -> (r: usize)
        ensures
            r == self.available(),
    {
        self.available
    }

    /// Take `n` units if that many are free; otherwise take none.
    pub fn take(&mut self, n: usize) -> (r: bool)
        requires
            old(self).wf(),
        ensures
            final(self).wf(),
            final(self).capacity() == old(self).capacity(),
            r == (n <= old(self).available()),
            r ==> final(self).available() == old(self).available() - n,
            !r ==> final(self).available() == old(self).available(),
    {
        if n <= self.available {
            self.available = self.available - n;
            true
        } else {
            false
        }
    }

    /// Give back `n` units taken earlier.
    pub fn give(&mut self, n: usize)
        requires
            old(self).wf(),
            old(self).available() + n <= old(self).capacity(),
        ensures
            final(self).wf(),
            final(self).capacity() == old(self).capacity(),
            final(self).available() == old(self).available() + n,
    {
        self.available = self.available + n;
    }
}

/// The first endpoint declared for `command`.
pub open spec fn endpoint_for(endpoints: Seq<EndpointView>, command: Seq<char>) -> Option<EndpointView>
    decreases endpoints.len(),
{
    if endpoints.len() == 0 {
        None
    } else if endpoints[0].id == command {
        Some(endpoints[0])
    } else {
        endpoint_for(endpoints.drop_first(), command)
    }
}

/// How a call is checked against the configured provider: the host name must
/// be one, the provider must be configured and export the command under the
/// signature the caller holds, and a typed call's arguments must fit.
pub open spec fn contract_check(
    host: Result<(), Seq<char>>,
    endpoints: Option<Seq<EndpointView>>,
    command: Seq<char>,
    signature: Seq<u8>,
    typed: bool,
    arguments: Result<(), Seq<char>>,
) -> Result<EndpointView, (ErrorCode, Seq<char>)> {
    match host {
        Err(reason) => Err((ErrorCode::InvalidArgument, reason)),
        Ok(()) => match endpoints {
            None => Err((ErrorCode::Unavailable, "command provider is not configured"@)),
            Some(es) => match endpoint_for(es, command) {
                None => Err((ErrorCode::InvalidArgument, "command not exported by provider"@)),
                Some(e) => if e.signature != signature {
                    Err((ErrorCode::FailedPrecondition, "command contract changed"@))
                } else if typed && (arguments is Err) {
                    Err((ErrorCode::InvalidArgument, arguments->Err_0))
                } else {
                    Ok(e)
                },
            },
        },
    }
}

fn find_endpoint(endpoints: &Vec<CommandEndpoint>, command: &str) -> (r: Option<usize>)
    ensures
        match endpoint_for(endpoints@.map_values(|e: CommandEndpoint| e@), command@) {
            Some(e) => r matches Some(k) && k < endpoints@.len() && endpoints@[k as int]@ == e,
            None => r is None,
        },
{
    let ghost view = endpoints@.map_values(|e: CommandEndpoint| e@);
    let mut k: usize = 0;
    proof {
        assert(view.skip(0) =~= view);
    }
    while k < endpoints.len()
        invariant
            k <= endpoints@.len(),
            view == endpoints@.map_values(|e: CommandEndpoint| e@),
            endpoint_for(view, command@) == endpoint_for(view.skip(k as int), command@),
        decreases endpoints@.len() - k,
    {
        let ghost rest = view.skip(k as int);
        proof {
            assert(rest.drop_first() =~= view.skip(k + 1));
            assert(rest[0] == view[k as int]);
        }
        if crate::text::text_eq(endpoints[k].id.as_str(), command) {
            return Some(k);
        }
        k = k + 1;
    }
    proof {
        assert(view.skip(k as int).len() == 0);
    }
    None
}

/// Check a call against the provider's contract; the endpoint it calls.
pub fn check_contract(
    host: Result<(), String>,
    endpoints: Option<&Vec<CommandEndpoint>>,
    command: &str,
    signature: &[u8],
    typed: bool,
    arguments: Result<(), String>,
) -> (r: Result<CommandEndpoint, Refusal>)
    ensures
        match contract_check(
            match host {
                Ok(()) => Ok(()),
                Err(s) => Err(s@),
            },
            match endpoints {
                Some(es) => Some(es@.map_values(|e: CommandEndpoint| e@)),
                None => None,
            },
            command@,
            signature@,
            typed,
            match arguments {
                Ok(()) => Ok(()),
                Err(s) => Err(s@),
            },
        ) {
            Ok(e) => r matches Ok(found) && found@ == e,
            Err((code, message)) => r matches Err(refusal) && refusal.code == code && refusal.message@ == message,
        },
{
    if let Err(reason) = host {
        return Err(Refusal::invalid(reason));
    }
    let endpoints = match endpoints {
        Some(endpoints) => endpoints,
        None => {
            return Err(Refusal::unavailable("command provider is not configured".to_owned()));
        },
    };
    let k = match find_endpoint(endpoints, command) {
        Some(k) => k,
        None => {
            return Err(Refusal::invalid("command not exported by provider".to_owned()));
        },
    };
    let endpoint = endpoints[k].duplicate();
    if !crate::text::bytes_equal(endpoint.signature.as_slice(), signature) {
        return Err(Refusal::precondition("command contract changed".to_owned()));
    }
    if typed {
        if let Err(reason) = arguments {
            return Err(Refusal::invalid(reason));
        }
    }
    Ok(endpoint)
}

/// What an admitted call holds until it is answered.
#[derive(Debug, Clone, Copy, PartialEq, Eq, Structural)]
pub struct Ticket {
    pub invocation: u64,
    /// Units of the shared payload capacity it holds.
    pub bytes: usize,
}

/// The largest payload a call may carry.
pub const PAYLOAD_LIMIT: usize = 4294967295;

/// Reserve what a call holds while it waits and runs: a place in the
/// provider's queue, an invocation record, and payload capacity for its
/// encoded `payload` bytes. On refusal nothing stays held: the places taken
/// are given back, and an invocation already recorded is completed as
/// abandoned.
pub fn reserve(
    admission: &mut Pool,
    invocations: &mut Invocations,
    bytes: &mut Pool,
    host: String,
    command: String,
    payload: usize,
    now: u64,
) -> (r: Result<Ticket, Refusal>)
    requires
        old(admission).wf(),
        old(bytes).wf(),
        old(invocations).wf(),
    ensures
        final(admission).wf(),
        final(bytes).wf(),
        final(invocations).wf(),
        final(admission).capacity() == old(admission).capacity(),
        final(bytes).capacity() == old(bytes).capacity(),
        old(admission).available() == 0 ==> (r matches Err(e) && e.code == ErrorCode::ResourceExhausted
            && e.message@ == "command provider capacity exhausted"@),
        old(admission).available() > 0 && old(invocations).last_id() == u64::MAX ==> (r matches Err(e)
            && e.code == ErrorCode::ResourceExhausted && e.message@ == "invocation identities exhausted"@),
        old(admission).available() > 0 && old(invocations).last_id() < u64::MAX && payload > PAYLOAD_LIMIT
            ==> (r matches Err(e) && e.code == ErrorCode::ResourceExhausted && e.message@ == "command payload too large"@),
        old(admission).available() > 0 && old(invocations).last_id() < u64::MAX && payload <= PAYLOAD_LIMIT
            && payload > old(bytes).available() ==> (r matches Err(e) && e.code == ErrorCode::ResourceExhausted
            && e.message@ == "command payload capacity exhausted"@),
        old(admission).available() > 0 && old(invocations).last_id() < u64::MAX && payload <= PAYLOAD_LIMIT
            && payload <= old(bytes).available() ==> (r matches Ok(t) && t.invocation == old(invocations).last_id() + 1
            && t.bytes == payload),
        r is Err ==> final(admission).available() == old(admission).available()
            && final(bytes).available() == old(bytes).available(),
        r is Ok ==> final(admission).available() == old(admission).available() - 1
            && final(bytes).available() == old(bytes).available() - payload
            && final(invocations).entries() == old(invocations).entries().push(EntryView {
                id: r->Ok_0.invocation,
                host: host@,
                command: command@,
                process: None,
                phase: crate::hosts::invocations::ExecutionPhase::Queued,
                admitted: now,
                started: None,
                finished: None,
                outcome: None,
            }) && final(invocations).completed() == old(invocations).completed(),
{
    if !admission.take(1) {
        return Err(Refusal::exhausted("command provider capacity exhausted".to_owned()));
    }
    let id = match invocations.record(host, command, now) {
        Ok(id) => id,
        Err(refusal) => {
            admission.give(1);
            return Err(refusal);
        },
    };
    if payload > PAYLOAD_LIMIT {
        invocations.complete(id, Completion::Abandoned, now);
        admission.give(1);
        return Err(Refusal::exhausted("command payload too large".to_owned()));
    }
    if !bytes.take(payload) {
        invocations.complete(id, Completion::Abandoned, now);
        admission.give(1);
        return Err(Refusal::exhausted("command payload capacity exhausted".to_owned()));
    }
    Ok(Ticket { invocation: id, bytes: payload })
}

/// A call waiting in a provider's queue.
#[derive(Debug, Clone, Copy, PartialEq, Eq, Structural)]
pub struct Waiting {
    pub invocation: u64,
    pub admitted: u64,
}

/// What becomes of the call at the front of the queue.
#[derive(Debug, Clone, Copy, PartialEq, Eq, Structural)]
pub enum Release {
    /// Its caller went away: drop it.
    Abandon(u64),
    /// It waited past the queue timeout: refuse it.
    Expire(u64),
    /// Run it.
    Start(u64),
}

/// Whether a call admitted at `admitted` has waited `timeout` by `now`.
pub open spec fn expired(admitted: u64, timeout: u64, now: u64) -> bool {
    now >= admitted && now - admitted >= timeout
}

/// The earliest moment a waiting call expires.
pub open spec fn earliest_deadline(waiting: Seq<Waiting>, timeout: u64) -> Option<int>
    decreases waiting.len(),
{
    if waiting.len() == 0 {
        None
    } else {
        let here = waiting.last().admitted + timeout;
        match earliest_deadline(waiting.drop_last(), timeout) {
            None => Some(here),
            Some(before) => Some(if before <= here { before } else { here }),
        }
    }
}

/// The deadline is the earliest of all: a queue with calls waiting has one,
/// no later than any waiting call's admission plus the timeout and equal to
/// some waiting call's; an empty queue has none.
pub proof fn the_deadline_is_the_earliest_expiry(waiting: Seq<Waiting>, timeout: u64)
    ensures
        earliest_deadline(waiting, timeout) is None <==> waiting.len() == 0,
        earliest_deadline(waiting, timeout) matches Some(d) ==> {
            &&& forall|i: int| 0 <= i < waiting.len() ==> d <= #[trigger] waiting[i].admitted + timeout
            &&& exists|i: int| 0 <= i < waiting.len() && d == #[trigger] waiting[i].admitted + timeout
        },
    decreases waiting.len(),
{
    if waiting.len() > 0 {
        let init = waiting.drop_last();
        the_deadline_is_the_earliest_expiry(init, timeout);
        let last = waiting.len() - 1;
        assert(waiting[last] == waiting.last());
        assert forall|i: int| 0 <= i < init.len() implies init[i] == waiting[i] by {}
        match earliest_deadline(init, timeout) {
            None => {
                assert(waiting.last().admitted + timeout == waiting[last].admitted + timeout);
            },
            Some(before) => {
                let j = choose|j: int| 0 <= j < init.len() && before == #[trigger] init[j].admitted + timeout;
                assert(init[j] == waiting[j]);
                assert forall|i: int| 0 <= i < waiting.len() implies earliest_deadline(waiting, timeout)->Some_0
                    <= #[trigger] waiting[i].admitted + timeout by {
                    if i < init.len() {
                        assert(init[i] == waiting[i]);
                    }
                }
            },
        }
    }
}

/// One provider's queue of admitted calls and how many of its calls run.
#[derive(Debug)]
pub struct ProviderQueue {
    waiting: Vec<Waiting>,
    running: usize,
}

impl ProviderQueue {
    pub closed spec fn waiting(&self) -> Seq<Waiting> {
        self.waiting@
    }

    pub closed spec fn running(&self) -> nat {
        self.running as nat
    }

    pub fn new() -> (r: Self)
        ensures
            r.waiting() == Seq::<Waiting>::empty(),
            r.running() == 0,
    {
        ProviderQueue { waiting: Vec::new(), running: 0 }
    }

    /// A call arrived.
    pub fn push(&mut self, invocation: u64, admitted: u64)
        ensures
            final(self).waiting() == old(self).waiting().push(Waiting { invocation, admitted }),
            final(self).running() == old(self).running(),
    {
        self.waiting.push(Waiting { invocation, admitted });
    }

    /// The call at the front, which `release` decides on next.
    pub fn front(&self) -> (r: Option<u64>)
        ensures
            self.waiting().len() == 0 ==> r is None,
            self.waiting().len() > 0 ==> r == Some(self.waiting()[0].invocation),
    {
        if self.waiting.len() == 0 {
            None
        } else {
            Some(self.waiting[0].invocation)
        }
    }

    /// Whether a call may start now: fewer than `concurrency` run and one
    /// waits.
    pub fn can_release(&self, concurrency: usize) -> (r: bool)
        ensures
            r == (self.running() < concurrency && self.waiting().len() > 0),
    {
        self.running < concurrency && self.waiting.len() > 0
    }

    /// Nothing waits and nothing runs.
    pub fn is_idle(&self) -> (r: bool)
        ensures
            r == (self.running() == 0 && self.waiting().len() == 0),
    {
        self.running == 0 && self.waiting.len() == 0
    }

    /// Take the front call: a call whose caller went away (`closed`) is
    /// abandoned, one that waited past `timeout` expires, any other starts
    /// and counts as running. The invocation record follows.
    pub fn release(&mut self, invocations: &mut Invocations, timeout: u64, now: u64, closed: bool) -> (r: Release)
        requires
            old(self).waiting().len() > 0,
            old(self).running() < usize::MAX,
            old(invocations).wf(),
        ensures
            final(invocations).wf(),
            final(self).waiting() == old(self).waiting().drop_first(),
            ({
                let w = old(self).waiting()[0];
                if closed {
                    &&& r == Release::Abandon(w.invocation)
                    &&& final(self).running() == old(self).running()
                    &&& completes(old(invocations).entries(), old(invocations).completed(), w.invocation) ==> completion_of(
                        old(invocations).entries(),
                        old(invocations).completed(),
                        w.invocation,
                        Completion::Abandoned,
                        now,
                        final(invocations).entries(),
                        final(invocations).completed(),
                    )
                } else if expired(w.admitted, timeout, now) {
                    &&& r == Release::Expire(w.invocation)
                    &&& final(self).running() == old(self).running()
                    &&& completes(old(invocations).entries(), old(invocations).completed(), w.invocation) ==> completion_of(
                        old(invocations).entries(),
                        old(invocations).completed(),
                        w.invocation,
                        Completion::Refused(ErrorCode::DeadlineExceeded),
                        now,
                        final(invocations).entries(),
                        final(invocations).completed(),
                    )
                } else {
                    &&& r == Release::Start(w.invocation)
                    &&& final(self).running() == old(self).running() + 1
                    &&& final(invocations).completed() == old(invocations).completed()
                }
            }),
    {
        let w = self.waiting.remove(0);
        if closed {
            invocations.complete(w.invocation, Completion::Abandoned, now);
            Release::Abandon(w.invocation)
        } else if now >= w.admitted && now - w.admitted >= timeout {
            invocations.complete(w.invocation, Completion::Refused(ErrorCode::DeadlineExceeded), now);
            Release::Expire(w.invocation)
        } else {
            invocations.starting(w.invocation, now);
            self.running = self.running + 1;
            Release::Start(w.invocation)
        }
    }

    /// A running call was answered.
    pub fn finished(&mut self)
        requires
            old(self).running() > 0,
        ensures
            final(self).running() == old(self).running() - 1,
            final(self).waiting() == old(self).waiting(),
    {
        self.running = self.running - 1;
    }

    /// When the next waiting call expires.
    pub fn deadline(&self, timeout: u64) -> (r: Option<u64>)
        requires
            forall|i: int| 0 <= i < self.waiting().len() ==> #[trigger] self.waiting()[i].admitted + timeout <= u64::MAX,
        ensures
            match earliest_deadline(self.waiting(), timeout) {
                None => r is None,
                Some(d) => r == Some(d as u64),
            },
    {
        let mut best: Option<u64> = None;
        let mut k: usize = 0;
        while k < self.waiting.len()
            invariant
                k <= self.waiting@.len(),
                forall|i: int| 0 <= i < self.waiting@.len() ==> #[trigger] self.waiting@[i].admitted + timeout <= u64::MAX,
                match earliest_deadline(self.waiting@.take(k as int), timeout) {
                    None => best is None,
                    Some(d) => 0 <= d <= u64::MAX && best == Some(d as u64),
                },
            decreases self.waiting@.len() - k,
        {
            proof {
                assert(self.waiting@.take(k + 1).drop_last() =~= self.waiting@.take(k as int));
                assert(self.waiting@.take(k + 1).last() == self.waiting@[k as int]);
            }
            let here = self.waiting[k].admitted + timeout;
            best = match best {
                None => Some(here),
                Some(before) => Some(if before <= here { before } else { here }),
            };
            k = k + 1;
        }
        proof {
            assert(self.waiting@.take(self.waiting@.len() as int) =~= self.waiting@);
        }
        best
    }

    /// Refuse every waiting call that has waited `timeout` by `now`, keeping
    /// the others in order; the calls refused, in queue order.
    pub fn sweep(&mut self, invocations: &mut Invocations, timeout: u64, now: u64) -> (r: Vec<u64>)
        requires
            old(invocations).wf(),
        ensures
            final(invocations).wf(),
            final(self).running() == old(self).running(),
            final(self).waiting() == old(self).waiting().filter(|w: Waiting| !expired(w.admitted, timeout, now)),
            r@ == old(self).waiting().filter(|w: Waiting| expired(w.admitted, timeout, now)).map_values(
                |w: Waiting| w.invocation,
            ),
    {
        let ghost all = self.waiting@;
        let mut kept: Vec<Waiting> = Vec::new();
        let mut gone: Vec<u64> = Vec::new();
        let mut k: usize = 0;
        proof {
            reveal(Seq::filter);
            assert(all.take(0) =~= Seq::<Waiting>::empty());
            assert(all.take(0).filter(|w: Waiting| !expired(w.admitted, timeout, now)) =~= Seq::<Waiting>::empty());
            assert(all.take(0).filter(|w: Waiting| expired(w.admitted, timeout, now)) =~= Seq::<Waiting>::empty());
        }
        while k < self.waiting.len()
            invariant
                all == self.waiting@,
                k <= all.len(),
                invocations.wf(),
                kept@ == all.take(k as int).filter(|w: Waiting| !expired(w.admitted, timeout, now)),
                gone@ == all.take(k as int).filter(|w: Waiting| expired(w.admitted, timeout, now)).map_values(
                    |w: Waiting| w.invocation,
                ),
            decreases all.len() - k,
        {
            let w = self.waiting[k];
            proof {
                assert(all.take(k + 1).drop_last() =~= all.take(k as int));
                assert(all.take(k + 1).last() == w);
                reveal(Seq::filter);
            }
            if now >= w.admitted && now - w.admitted >= timeout {
                invocations.complete(w.invocation, Completion::Refused(ErrorCode::DeadlineExceeded), now);
                let ghost before = gone@;
                gone.push(w.invocation);
                proof {
                    let f = all.take(k as int).filter(|x: Waiting| expired(x.admitted, timeout, now));
                    assert(f.push(w).map_values(|x: Waiting| x.invocation) =~= f.map_values(|x: Waiting| x.invocation).push(w.invocation));
                }
            } else {
                kept.push(w);
            }
            k = k + 1;
        }
        proof {
            assert(all.take(all.len() as int) =~= all);
        }
        self.waiting = kept;
        gone
    }
}

} // verus!
