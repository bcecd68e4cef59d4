//! Running brokers, and routing actions to them: the decisions a broker's
//! driver makes about its connection, and the admission of actions.
//!
//! Open lazily and again after the connection goes; take the first reading
//! at once; count a broker as reporting only after a reading succeeds; drop
//! the connection whenever something fails, and reopen before reading again.
use vstd::prelude::*;
use crate::hosts::calls::Pool;
use crate::plugins::session::Slot;
use crate::refusal::{compose, ErrorCode, Refusable, Refusal};

verus! {

/// Why a broker did not do what it was asked.
#[derive(Debug, Clone, PartialEq, Eq)]
pub enum BrokerFailure {
    /// More than one frame or one queue can hold.
    TooLarge,
    /// No room in the queue or the byte budget.
    Full,
    /// No answer in time.
    Timeout,
    /// The subsystem's connection failed.
    Io(String),
    /// What the subsystem said could not be used.
    Unreadable(String),
    /// The broker's task is gone.
    Gone,
    /// The broker does not serve this kind of action.
    Unserved(String),
    /// The subsystem cannot do what was asked.
    Unsupported(String),
}

/// The code a failure is answered with: a kind of action no broker serves
/// is not implemented; a connection that failed or said nothing usable, or
/// a broker that is gone, is unavailable.
pub open spec fn failure_code(f: BrokerFailure) -> ErrorCode {
    match f {
        BrokerFailure::Unserved(_) | BrokerFailure::Unsupported(_) => ErrorCode::Unimplemented,
        BrokerFailure::Io(_) | BrokerFailure::Unreadable(_) | BrokerFailure::Gone => ErrorCode::Unavailable,
        BrokerFailure::Timeout => ErrorCode::DeadlineExceeded,
        BrokerFailure::Full => ErrorCode::ResourceExhausted,
        BrokerFailure::TooLarge => ErrorCode::PayloadTooLarge,
    }
}

/// What a failure says, in words.
pub open spec fn failure_text(f: BrokerFailure) -> Seq<char> {
    match f {
        BrokerFailure::TooLarge => "the action is too large"@,
        BrokerFailure::Full => "the broker's queue is full"@,
        BrokerFailure::Timeout => "the broker did not answer in time"@,
        BrokerFailure::Io(why) => "the broker's connection failed: "@ + why@,
        BrokerFailure::Unreadable(why) => "the broker's answer is unreadable: "@ + why@,
        BrokerFailure::Gone => "the broker is gone"@,
        BrokerFailure::Unserved(kind) => "no broker serves "@ + kind@ + " actions"@,
        BrokerFailure::Unsupported(why) => "the broker cannot do this: "@ + why@,
    }
}

impl BrokerFailure {
    /// What went wrong, in words.
    pub fn describe(&self) -> (r: String)
        ensures
            r@ == failure_text(*self),
    {
        proof {
            reveal_strlit("");
        }
        match self {
            BrokerFailure::TooLarge => "the action is too large".to_owned(),
            BrokerFailure::Full => "the broker's queue is full".to_owned(),
            BrokerFailure::Timeout => "the broker did not answer in time".to_owned(),
            BrokerFailure::Io(why) => compose("the broker's connection failed: ", why.as_str(), ""),
            BrokerFailure::Unreadable(why) => compose("the broker's answer is unreadable: ", why.as_str(), ""),
            BrokerFailure::Gone => "the broker is gone".to_owned(),
            BrokerFailure::Unserved(kind) => compose("no broker serves ", kind.as_str(), " actions"),
            BrokerFailure::Unsupported(why) => compose("the broker cannot do this: ", why.as_str(), ""),
        }
    }
}

impl Refusable for BrokerFailure {
    open spec fn refusal_code(&self) -> ErrorCode {
        failure_code(*self)
    }

    open spec fn refusal_text(&self) -> Seq<char> {
        failure_text(*self)
    }

    fn refusal(&self) -> (r: Refusal)
        ensures
            r.code == failure_code(*self),
            r.message@ == failure_text(*self),
    {
        Refusal::new(
            match self {
                BrokerFailure::Unserved(_) | BrokerFailure::Unsupported(_) => ErrorCode::Unimplemented,
                BrokerFailure::Io(_) | BrokerFailure::Unreadable(_) | BrokerFailure::Gone => ErrorCode::Unavailable,
                BrokerFailure::Timeout => ErrorCode::DeadlineExceeded,
                BrokerFailure::Full => ErrorCode::ResourceExhausted,
                BrokerFailure::TooLarge => ErrorCode::PayloadTooLarge,
            },
            self.describe(),
        )
    }
}

/// What the driver has with its broker.
#[derive(Debug, Clone, Copy, PartialEq, Eq, Structural)]
pub enum Contact {
    /// Nothing open. Connect before anything else.
    Closed,
    /// Open, with nothing read yet: read at once.
    Opened,
    /// Open and reporting: the next reading waits for the broker to wake.
    Primed,
}

/// What the driver does next in a given contact state: connect when closed,
/// read at once when opened, wait for a wake (or an action) when primed.
#[derive(Debug, Clone, Copy, PartialEq, Eq, Structural)]
pub enum Due {
    Connect,
    ReadNow,
    AwaitWake,
}

pub open spec fn due_spec(c: Contact) -> Due {
    match c {
        Contact::Closed => Due::Connect,
        Contact::Opened => Due::ReadNow,
        Contact::Primed => Due::AwaitWake,
    }
}

/// A driver's state: its contact and how many consecutive failures the
/// current backoff has seen.
#[derive(Debug, Clone, Copy, PartialEq, Eq, Structural)]
pub struct DriverState {
    pub contact: Contact,
    pub failures: u32,
}

pub open spec fn paused(s: DriverState) -> DriverState {
    DriverState { contact: Contact::Closed, failures: if s.failures < u32::MAX { (s.failures + 1) as u32 } else { s.failures } }
}

impl DriverState {
    /// A driver that has not connected.
    pub fn new() -> (r: Self)
        ensures
            r.contact == Contact::Closed,
            r.failures == 0,
    {
        DriverState { contact: Contact::Closed, failures: 0 }
    }

    /// What the driver does next.
    pub fn due(&self) -> (r: Due)
        ensures
            r == due_spec(self.contact),
    {
        match self.contact {
            Contact::Closed => Due::Connect,
            Contact::Opened => Due::ReadNow,
            Contact::Primed => Due::AwaitWake,
        }
    }

    /// A failure: the connection is dropped (and its readings retracted),
    /// and the driver waits out one more step of backoff.
    pub fn pause(&mut self)
        ensures
            *final(self) == paused(*old(self)),
    {
        self.contact = Contact::Closed;
        if self.failures < u32::MAX {
            self.failures = self.failures + 1;
        }
    }

    /// A connection attempt ended; true when the driver now pauses.
    pub fn opened(&mut self, connected: bool) -> (pause: bool)
        ensures
            pause == !connected,
            connected ==> *final(self) == (DriverState { contact: Contact::Opened, ..*old(self) }),
            !connected ==> *final(self) == paused(*old(self)),
    {
        if connected {
            self.contact = Contact::Opened;
            false
        } else {
            self.pause();
            true
        }
    }

    /// A reading ended: one that worked (and whose changes were retained)
    /// makes the broker reporting and resets the backoff; any other pauses.
    /// True when the driver now pauses.
    pub fn read(&mut self, worked: bool, retained: bool) -> (pause: bool)
        ensures
            pause == !(worked && retained),
            worked && retained ==> *final(self) == (DriverState { contact: Contact::Primed, failures: 0 }),
            !worked ==> *final(self) == paused(*old(self)),
            worked && !retained ==> *final(self) == paused(DriverState { contact: Contact::Primed, failures: 0 }),
    {
        if !worked {
            self.pause();
            return true;
        }
        self.contact = Contact::Primed;
        self.failures = 0;
        if !retained {
            self.pause();
            return true;
        }
        false
    }

    /// The broker's wake failed: what it was waiting on is gone.
    pub fn wake_failed(&mut self)
        ensures
            *final(self) == paused(*old(self)),
    {
        self.pause();
    }
}

/// How a queued action starts: dropped unanswered when its caller left,
/// answered with a timeout when its deadline passed, else acted on.
#[derive(Debug, Clone, Copy, PartialEq, Eq, Structural)]
pub enum ServeStart {
    Skip,
    Expired,
    Act,
}

pub fn serve_start(caller_left: bool, now: u64, deadline: u64) -> (r: ServeStart)
    ensures
        caller_left ==> r == ServeStart::Skip,
        !caller_left && deadline <= now ==> r == ServeStart::Expired,
        !caller_left && deadline > now ==> r == ServeStart::Act,
{
    if caller_left {
        ServeStart::Skip
    } else if deadline <= now {
        ServeStart::Expired
    } else {
        ServeStart::Act
    }
}

/// Why a change an action made could not be retained.
#[derive(Debug, Clone, Copy, PartialEq, Eq, Structural)]
pub enum RetainFailure {
    TooLarge,
    Other,
}

/// Whether a failure means the connection can no longer be trusted.
pub open spec fn reconnects(f: BrokerFailure) -> bool {
    (f is Timeout) || (f is Io) || (f is Unreadable) || (f is Full) || (f is TooLarge)
}

/// The answer an action gets, and whether the driver then pauses: a change
/// it made that could not be retained turns into a refusal (too large, or
/// full); a failure that leaves the connection in doubt pauses the driver
/// after the caller is answered.
pub fn action_outcome(outcome: Result<(), BrokerFailure>, retained: Result<(), RetainFailure>) -> (r: (Result<(), BrokerFailure>, bool))
    ensures
        ({
            let effective = match outcome {
                Err(f) => Err(f),
                Ok(()) => match retained {
                    Ok(()) => Ok(()),
                    Err(RetainFailure::TooLarge) => Err(BrokerFailure::TooLarge),
                    Err(RetainFailure::Other) => Err(BrokerFailure::Full),
                },
            };
            &&& r.0 == effective
            &&& r.1 == (effective matches Err(f) && reconnects(f))
        }),
{
    let effective = match outcome {
        Err(f) => Err(f),
        Ok(()) => match retained {
            Ok(()) => Ok(()),
            Err(RetainFailure::TooLarge) => Err(BrokerFailure::TooLarge),
            Err(RetainFailure::Other) => Err(BrokerFailure::Full),
        },
    };
    let reconnect = match &effective {
        Err(BrokerFailure::Timeout) | Err(BrokerFailure::Io(_)) | Err(BrokerFailure::Unreadable(_)) | Err(BrokerFailure::Full) | Err(
            BrokerFailure::TooLarge,
        ) => true,
        _ => false,
    };
    (effective, reconnect)
}

/// Most actions queued for one broker.
pub const QUEUE: usize = 8;

/// Bytes the queued actions of all brokers may hold together.
pub const BYTE_LIMIT: usize = 8388608;

/// Admit an action of `size` encoded bytes for a broker whose queue is in
/// state `slot`: refused when larger than a frame, when the byte budget or
/// the queue is full, or when the broker is gone; the bytes it holds are
/// taken only when it is admitted.
pub fn admit_action(size: usize, max_frame: usize, bytes: &mut Pool, slot: Slot) -> (r: Result<(), BrokerFailure>)
    requires
        old(bytes).wf(),
    ensures
        final(bytes).wf(),
        final(bytes).capacity() == old(bytes).capacity(),
        size > max_frame ==> r == Err::<(), BrokerFailure>(BrokerFailure::TooLarge),
        size <= max_frame && size > old(bytes).available() ==> r == Err::<(), BrokerFailure>(BrokerFailure::Full),
        size <= max_frame && size <= old(bytes).available() && slot == Slot::Full ==> r == Err::<(), BrokerFailure>(BrokerFailure::Full),
        size <= max_frame && size <= old(bytes).available() && slot == Slot::Closed ==> r == Err::<(), BrokerFailure>(BrokerFailure::Gone),
        size <= max_frame && size <= old(bytes).available() && slot == Slot::Ready ==> r is Ok,
        r is Ok ==> final(bytes).available() == old(bytes).available() - size,
        r is Err ==> final(bytes).available() == old(bytes).available(),
{
    if size > max_frame {
        return Err(BrokerFailure::TooLarge);
    }
    if !bytes.take(size) {
        return Err(BrokerFailure::Full);
    }
    match slot {
        Slot::Ready => Ok(()),
        Slot::Full => {
            bytes.give(size);
            Err(BrokerFailure::Full)
        },
        Slot::Closed => {
            bytes.give(size);
            Err(BrokerFailure::Gone)
        },
    }
}

/// How an admitted action's wait ended.
#[derive(Debug)]
pub enum Awaited {
    Answered(Result<(), BrokerFailure>),
    /// The broker dropped the request without answering.
    Dropped,
    /// The deadline passed first.
    TimedOut,
}

/// What the caller of an action is told.
pub fn settle(awaited: Awaited) -> (r: Result<(), BrokerFailure>)
    ensures
        match awaited {
            Awaited::Answered(a) => r == a,
            Awaited::Dropped => r == Err::<(), BrokerFailure>(BrokerFailure::Gone),
            Awaited::TimedOut => r == Err::<(), BrokerFailure>(BrokerFailure::Timeout),
        },
{
    match awaited {
        Awaited::Answered(a) => a,
        Awaited::Dropped => Err(BrokerFailure::Gone),
        Awaited::TimedOut => Err(BrokerFailure::Timeout),
    }
}

/// Which broker serves which action kind: the last broker added that
/// claims a kind.
pub open spec fn route_for(routes: Seq<(u32, usize)>, kind: u32) -> Option<usize>
    decreases routes.len(),
{
    if routes.len() == 0 {
        None
    } else if routes.last().0 == kind {
        Some(routes.last().1)
    } else {
        route_for(routes.drop_last(), kind)
    }
}

/// The brokers' routes, by action kind.
#[derive(Debug)]
pub struct Routes {
    claims: Vec<(u32, usize)>,
    brokers: usize,
}

impl Routes {
    pub closed spec fn claims(&self) -> Seq<(u32, usize)> {
        self.claims@
    }

    pub closed spec fn brokers(&self) -> nat {
        self.brokers as nat
    }

    pub fn new() -> (r: Self)
        ensures
            r.claims().len() == 0,
            r.brokers() == 0,
    {
        Routes { claims: Vec::new(), brokers: 0 }
    }

    /// Register the next broker and the kinds it claims; its number.
    pub fn add(&mut self, kinds: &Vec<u32>) -> (r: usize)
        requires
            old(self).brokers() < usize::MAX,
        ensures
            r == old(self).brokers(),
            final(self).brokers() == old(self).brokers() + 1,
            final(self).claims() == old(self).claims() + kinds@.map_values(|k: u32| (k, r)),
    {
        let broker = self.brokers;
        let ghost before = self.claims@;
        let mut k: usize = 0;
        while k < kinds.len()
            invariant
                k <= kinds@.len(),
                self.brokers == broker,
                self.claims@ == before + kinds@.take(k as int).map_values(|x: u32| (x, broker)),
            decreases kinds@.len() - k,
        {
            self.claims.push((kinds[k], broker));
            proof {
                assert(self.claims@ =~= before + kinds@.take(k + 1).map_values(|x: u32| (x, broker)));
            }
            k = k + 1;
        }
        proof {
            assert(kinds@.take(kinds@.len() as int) =~= kinds@);
        }
        self.brokers = broker + 1;
        broker
    }

    /// The broker that serves `kind`; none when no broker claims it.
    pub fn route(&self, kind: u32) -> (r: Option<usize>)
        ensures
            r == route_for(self.claims(), kind),
    {
        let mut k = self.claims.len();
        proof {
            assert(self.claims@.take(k as int) =~= self.claims@);
        }
        while k > 0
            invariant
                k <= self.claims@.len(),
                route_for(self.claims@, kind) == route_for(self.claims@.take(k as int), kind),
            decreases k,
        {
            proof {
                assert(self.claims@.take(k as int).drop_last() =~= self.claims@.take(k - 1));
                assert(self.claims@.take(k as int).last() == self.claims@[k - 1]);
            }
            if self.claims[k - 1].0 == kind {
                return Some(self.claims[k - 1].1);
            }
            k = k - 1;
        }
        None
    }
}

/// Any failure leaves the driver closed: a broker that failed reopens before
/// it reads again, whatever it was doing.
pub proof fn failure_reopens(s: DriverState)
    ensures
        due_spec(paused(s).contact) == Due::Connect,
{
}

} // verus!
