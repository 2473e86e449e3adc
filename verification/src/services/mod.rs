//! Services of the engine.
pub mod foreground;
pub mod identity;
pub mod identity_cache;
pub mod poll_laws;
pub mod socket;
pub mod system;
pub mod watch;
pub mod watch_laws;

pub use system::{Service, ServiceStep, SystemServices};
