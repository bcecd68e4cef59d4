//! Why a peer is turned away, and the one mapping from each domain error to
//! the code it is answered with.
use vstd::prelude::*;

verus! {

/// The codes a refusal carries on the wire.
#[derive(Debug, Clone, Copy, PartialEq, Eq, Structural)]
pub enum ErrorCode {
    InvalidArgument,
    FailedPrecondition,
    Unavailable,
    Unimplemented,
    DeadlineExceeded,
    ResourceExhausted,
    PayloadTooLarge,
    PermissionDenied,
    Unauthenticated,
    OutcomeUnknown,
}

/// A refusal: its code and the text that says why.
#[derive(Debug, Clone, PartialEq, Eq)]
pub struct Refusal {
    pub code: ErrorCode,
    pub message: String,
}

impl Refusal {
    pub fn new(code: ErrorCode, message: String) -> (r: Self)
        ensures
            r.code == code,
            r.message@ == message@,
    {
        Refusal { code, message }
    }

    /// The caller sent something malformed.
    pub fn invalid(message: String) -> (r: Self)
        ensures
            r.code == ErrorCode::InvalidArgument,
            r.message@ == message@,
    {
        Refusal::new(ErrorCode::InvalidArgument, message)
    }

    /// The request is well formed, but the state it needs does not hold.
    pub fn precondition(message: String) -> (r: Self)
        ensures
            r.code == ErrorCode::FailedPrecondition,
            r.message@ == message@,
    {
        Refusal::new(ErrorCode::FailedPrecondition, message)
    }

    /// What was asked for is not there now.
    pub fn unavailable(message: String) -> (r: Self)
        ensures
            r.code == ErrorCode::Unavailable,
            r.message@ == message@,
    {
        Refusal::new(ErrorCode::Unavailable, message)
    }

    pub fn unimplemented(message: String) -> (r: Self)
        ensures
            r.code == ErrorCode::Unimplemented,
            r.message@ == message@,
    {
        Refusal::new(ErrorCode::Unimplemented, message)
    }

    pub fn deadline(message: String) -> (r: Self)
        ensures
            r.code == ErrorCode::DeadlineExceeded,
            r.message@ == message@,
    {
        Refusal::new(ErrorCode::DeadlineExceeded, message)
    }

    pub fn exhausted(message: String) -> (r: Self)
        ensures
            r.code == ErrorCode::ResourceExhausted,
            r.message@ == message@,
    {
        Refusal::new(ErrorCode::ResourceExhausted, message)
    }

    pub fn too_large(message: String) -> (r: Self)
        ensures
            r.code == ErrorCode::PayloadTooLarge,
            r.message@ == message@,
    {
        Refusal::new(ErrorCode::PayloadTooLarge, message)
    }

    pub fn denied(message: String) -> (r: Self)
        ensures
            r.code == ErrorCode::PermissionDenied,
            r.message@ == message@,
    {
        Refusal::new(ErrorCode::PermissionDenied, message)
    }

    pub fn unauthenticated(message: String) -> (r: Self)
        ensures
            r.code == ErrorCode::Unauthenticated,
            r.message@ == message@,
    {
        Refusal::new(ErrorCode::Unauthenticated, message)
    }

    /// A copy of this refusal.
    pub fn duplicate(&self) -> (r: Self)
        ensures
            r.code == self.code,
            r.message@ == self.message@,
    {
        Refusal { code: self.code, message: self.message.clone() }
    }
}

/// Text made of a literal and a name: `before` + `name` + `after`.
pub fn compose(before: &str, name: &str, after: &str) -> (r: String)
    ensures
        r@ == before@ + name@ + after@,
{
    let mut text = before.to_owned();
    text.append(name);
    text.append(after);
    text
}

/// An error this daemon knows how to answer with.
pub trait Refusable {
    /// The code this error is answered with.
    spec fn refusal_code(&self) -> ErrorCode;

    /// The words this error is answered with.
    spec fn refusal_text(&self) -> Seq<char>;

    fn refusal(&self) -> (r: Refusal)
        ensures
            r.code == self.refusal_code(),
            r.message@ == self.refusal_text(),
    ;
}

/// `?` on a domain error inside anything that answers a peer.
pub trait RefusableResult<T> {
    fn or_refuse(self) -> Result<T, Refusal>;
}

impl<T, E: Refusable> RefusableResult<T> for Result<T, E> {
    fn or_refuse(self) -> (r: Result<T, Refusal>)
        ensures
            match self {
                Ok(value) => r == Ok::<T, Refusal>(value),
                Err(error) => r matches Err(x) && x.code == error.refusal_code() && x.message@ == error.refusal_text(),
            },
    {
        match self {
            Ok(value) => Ok(value),
            Err(error) => Err(error.refusal()),
        }
    }
}

} // verus!
