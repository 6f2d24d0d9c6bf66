//! The wire protocol between the queue runner and its builders.

pub mod error;
pub mod frame;
pub mod messages;

pub use error::RpcError;
pub use frame::{FrameReader, FrameWriter};
