//! Epoch-based reclamation: participants announce critical sections, park
//! callbacks under the global epoch, and a collector advances the epoch and
//! hands back callbacks that no reader can still observe.

pub mod deferred;
pub mod epoch;
pub mod global;
pub mod laws;
pub mod local;

pub use deferred::Deferred;
pub use epoch::{increment_epoch, next_epoch};
pub use global::{defer, enter_critical, exit_critical, protected, run_all, Global, TSLocal};
pub use local::Local;
