//! Configured executable command providers and their admitted executions.
pub mod startup;
pub mod invocations;
pub mod processes;
pub mod config;
pub mod calls;
pub mod execution;
pub mod status;
