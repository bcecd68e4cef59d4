//! Plugins: their lifecycle, their identity tokens, and the table of records.

pub mod lifecycle;
pub mod token;
pub mod record;
pub mod registry;
pub mod session;
pub mod commands;
pub mod catalogue;
pub mod instance;

pub use lifecycle::{Lifecycle, LifecycleView, PluginPhase, Transition, TransitionView};
pub use token::{PluginToken, TokenError};
pub use record::{PluginRecord, PluginStatus};
pub use registry::{PluginRegistry, Retired};
pub use session::{Answer, RequestError, Slot};
