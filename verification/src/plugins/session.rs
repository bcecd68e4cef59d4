//! Daemon-to-plugin requests: what is admitted to a session's queue, and what
//! becomes of the answer.
use vstd::prelude::*;
use crate::refusal::{compose, ErrorCode, Refusable, Refusal};

verus! {

/// How long a plugin gets to answer before the daemon gives up on it, in
/// milliseconds. A plugin that is wedged must not wedge the reconciler.
pub const REQUEST_TIMEOUT_MS: u64 = 5000;

/// Why a request to a plugin got no answer.
#[derive(Debug, Clone, PartialEq, Eq)]
pub enum RequestError {
    Full(String),
    TooLarge(String),
    Absent(String),
    Timeout(String),
    Refused { plugin: String, source: Refusal },
}

/// The state of a session's request queue when a request arrives.
#[derive(Debug, Clone, Copy, PartialEq, Eq, Structural)]
pub enum Slot {
    /// There is room for one more request.
    Ready,
    /// The queue is full.
    Full,
    /// The session ended.
    Closed,
}

/// How a queued request ended.
#[derive(Debug)]
pub enum Answer<O> {
    /// The plugin answered.
    Answered(O),
    /// The plugin refused.
    Refused(Refusal),
    /// The session ended while the request was outstanding.
    Dropped,
    /// No answer came in time.
    TimedOut,
}

/// The reason a request of `size` bytes is not queued, if any: too large
/// for a frame (less room for framing), more bytes than the shared budget has
/// left, or a queue that is full or gone.
pub open spec fn admission_spec(size: nat, max_frame: nat, available: nat, slot: Slot) -> Option<int> {
    if size + 32 > max_frame {
        Some(1)
    } else if size > available {
        Some(0)
    } else if slot == Slot::Full {
        Some(0)
    } else if slot == Slot::Closed {
        Some(2)
    } else {
        None
    }
}

impl RequestError {
    /// The plugin the request was for.
    pub fn plugin(&self) -> (r: &String)
        ensures
            r@ == match self {
                RequestError::Full(p) => p@,
                RequestError::TooLarge(p) => p@,
                RequestError::Absent(p) => p@,
                RequestError::Timeout(p) => p@,
                RequestError::Refused { plugin, .. } => plugin@,
            },
    {
        match self {
            RequestError::Full(p) => p,
            RequestError::TooLarge(p) => p,
            RequestError::Absent(p) => p,
            RequestError::Timeout(p) => p,
            RequestError::Refused { plugin, .. } => plugin,
        }
    }

    /// The text the error is reported with.
    pub fn describe(&self) -> (r: String)
        ensures
            self matches RequestError::Full(p) ==> r@ == "request capacity for "@ + p@ + " exhausted"@,
            self matches RequestError::TooLarge(p) ==> r@ == "request to "@ + p@ + " exceeds payload limit"@,
            self matches RequestError::Absent(p) ==> r@ == p@ + " is not connected"@,
            self matches RequestError::Timeout(p) ==> r@ == p@ + " did not answer in time"@,
            self matches RequestError::Refused { plugin, source } ==> r@ == plugin@ + " refused: "@
                + source.message@,
    {
        match self {
            RequestError::Full(p) => compose("request capacity for ", p.as_str(), " exhausted"),
            RequestError::TooLarge(p) => compose("request to ", p.as_str(), " exceeds payload limit"),
            RequestError::Absent(p) => {
                proof {
                    reveal_strlit("");
                    assert(""@ + p@ =~= p@);
                }
                compose("", p.as_str(), " is not connected")
            },
            RequestError::Timeout(p) => {
                proof {
                    reveal_strlit("");
                    assert(""@ + p@ =~= p@);
                }
                compose("", p.as_str(), " did not answer in time")
            },
            RequestError::Refused { plugin, source } => {
                proof {
                    reveal_strlit("");
                    assert(""@ + plugin@ =~= plugin@);
                }
                compose("", plugin.as_str(), " refused: ").concat(source.message.as_str())
            },
        }
    }

    /// Whether a request of `size` bytes may be queued for `plugin`; the
    /// error says why not.
    pub fn admission(plugin: &str, size: usize, max_frame: usize, available: usize, slot: Slot) -> (r: Result<(), RequestError>)
        ensures
            r is Ok <==> admission_spec(size as nat, max_frame as nat, available as nat, slot) is None,
            r matches Err(RequestError::Full(p)) ==> p@ == plugin@ && admission_spec(size as nat, max_frame as nat, available as nat, slot) == Some(0int),
            r matches Err(RequestError::TooLarge(p)) ==> p@ == plugin@ && admission_spec(size as nat, max_frame as nat, available as nat, slot) == Some(1int),
            r matches Err(RequestError::Absent(p)) ==> p@ == plugin@ && admission_spec(size as nat, max_frame as nat, available as nat, slot) == Some(2int),
            r matches Err(e) ==> !(e is Timeout) && !(e is Refused),
    {
        if max_frame < 32 || size > max_frame - 32 {
            return Err(RequestError::TooLarge(plugin.to_owned()));
        }
        if size > available {
            return Err(RequestError::Full(plugin.to_owned()));
        }
        match slot {
            Slot::Full => Err(RequestError::Full(plugin.to_owned())),
            Slot::Closed => Err(RequestError::Absent(plugin.to_owned())),
            Slot::Ready => Ok(()),
        }
    }

    /// What a queued request to `plugin` ends as.
    pub fn settle<O>(plugin: &str, answer: Answer<O>) -> (r: Result<O, RequestError>)
        ensures
            answer matches Answer::Answered(o) ==> r == Ok::<O, RequestError>(o),
            answer matches Answer::Refused(x) ==> (r matches Err(RequestError::Refused { plugin: p, source })
                && p@ == plugin@ && source == x),
            answer is Dropped ==> (r matches Err(RequestError::Absent(p)) && p@ == plugin@),
            answer is TimedOut ==> (r matches Err(RequestError::Timeout(p)) && p@ == plugin@),
    {
        match answer {
            Answer::Answered(outcome) => Ok(outcome),
            Answer::Refused(refusal) => Err(RequestError::Refused { plugin: plugin.to_owned(), source: refusal }),
            Answer::Dropped => Err(RequestError::Absent(plugin.to_owned())),
            Answer::TimedOut => Err(RequestError::Timeout(plugin.to_owned())),
        }
    }
}

impl Refusable for RequestError {
    open spec fn refusal_code(&self) -> ErrorCode {
        match self {
            RequestError::Refused { source, .. } => source.code,
            RequestError::Absent(_) => ErrorCode::Unavailable,
            RequestError::Timeout(_) => ErrorCode::DeadlineExceeded,
            RequestError::Full(_) => ErrorCode::ResourceExhausted,
            RequestError::TooLarge(_) => ErrorCode::PayloadTooLarge,
        }
    }

    open spec fn refusal_text(&self) -> Seq<char> {
        match self {
            RequestError::Refused { source, .. } => source.message@,
            _ => self.describe_spec(),
        }
    }

    /// The unit's own answer is kept as it was: the daemon was only the
    /// messenger. A unit that is not there yet is unavailable, not malformed.
    fn refusal(&self) -> (r: Refusal)
        ensures
            self matches RequestError::Refused { source, .. } ==> r.code == source.code && r.message@ == source.message@,
            self is Absent ==> r.code == ErrorCode::Unavailable,
            self is Timeout ==> r.code == ErrorCode::DeadlineExceeded,
            self is Full ==> r.code == ErrorCode::ResourceExhausted,
            self is TooLarge ==> r.code == ErrorCode::PayloadTooLarge,
            !(self is Refused) ==> r.message@ == self.describe_spec(),
    {
        match self {
            RequestError::Refused { source, .. } => source.duplicate(),
            RequestError::Absent(_) => Refusal::unavailable(self.describe()),
            RequestError::Timeout(_) => Refusal::deadline(self.describe()),
            RequestError::Full(_) => Refusal::exhausted(self.describe()),
            RequestError::TooLarge(_) => Refusal::too_large(self.describe()),
        }
    }
}

impl RequestError {
    pub open spec fn describe_spec(&self) -> Seq<char> {
        match self {
            RequestError::Full(p) => "request capacity for "@ + p@ + " exhausted"@,
            RequestError::TooLarge(p) => "request to "@ + p@ + " exceeds payload limit"@,
            RequestError::Absent(p) => p@ + " is not connected"@,
            RequestError::Timeout(p) => p@ + " did not answer in time"@,
            RequestError::Refused { plugin, source } => plugin@ + " refused: "@ + source.message@,
        }
    }
}

} // verus!
