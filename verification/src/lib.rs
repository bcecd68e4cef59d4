//! The Omega daemon's decision core: lifecycle state machines, the plugin
//! table, bounded histories and queues, and the planners that compare what a
//! document declares with what is running.

pub mod manifest;
pub mod plugins;
pub mod reconcile;
pub mod refusal;
pub mod text;
pub mod keyed;
pub mod hub;
pub mod hosts;
pub mod authorization;
pub mod events;
pub mod attachment;
pub mod broker;
pub mod cargo;
pub mod host;
pub mod action;
pub mod presentations;
pub mod schedule;
pub mod workspace;
