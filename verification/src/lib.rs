//! Verified core of the Hydra queue runner and its builder protocol.

pub mod protocol;
pub mod text;
pub mod dispatch;
pub mod resolve;
pub mod notify;
pub mod server;
pub mod queue;
pub mod io;
pub mod steps;
pub mod client;
