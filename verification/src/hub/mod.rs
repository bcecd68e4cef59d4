//! The hub: bounded histories, the registry of published views, and the
//! heartbeat observers receive independent of what they subscribed to.
use vstd::prelude::*;

pub mod history;
pub mod views;

verus! {

/// A heartbeat line, independent of topic changes and subscription
/// selection. Its one field is always true: every line an observer reads is
/// an object, told apart from the others by the keys it carries.
#[derive(Debug, Clone, Copy, PartialEq, Eq, Structural)]
pub struct Heartbeat {
    pub heartbeat: bool,
}

impl Heartbeat {
    /// The heartbeat line.
    pub fn beat() -> (r: Self)
        ensures
            r.heartbeat,
    {
        Heartbeat { heartbeat: true }
    }
}

} // verus!
