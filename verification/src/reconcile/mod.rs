//! Plan and apply desired-state changes per domain.
//! Planning is pure; applying an empty plan leaves runtime state unchanged.
use vstd::prelude::*;

pub mod converger;
pub mod deployment;
pub mod environment;
pub mod supervised;
pub mod presentations;
pub mod schedules;
pub mod config;
pub mod descriptor;

verus! {

/// What a change does to an entity.
#[derive(Debug, Clone, Copy, PartialEq, Eq, Structural)]
pub enum Action {
    Create,
    Update,
    Delete,
}

/// A domain's plan or application failed, and why.
#[derive(Debug, Clone, PartialEq, Eq)]
pub struct ProviderError {
    pub domain: &'static str,
    pub message: String,
}

impl ProviderError {
    pub fn new(domain: &'static str, message: String) -> (r: Self)
        ensures
            r.domain@ == domain@,
            r.message@ == message@,
    {
        ProviderError { domain, message }
    }

    /// The error in words: its domain, a colon, then why.
    pub fn describe(&self) -> (r: String)
        ensures
            r@ == self.domain@ + ": "@ + self.message@,
    {
        crate::refusal::compose(self.domain, ": ", self.message.as_str())
    }
}

} // verus!
