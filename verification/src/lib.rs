//! A user-space TCP/IP protocol engine over raw IPv4 frames.
//!
//! The crate holds the wire codec, the congestion controller, the
//! per-connection state machine and the connection table. It performs no
//! I/O: frames, commands and clock readings are handed in, and the frames to
//! transmit are handed back.

pub mod buffer;
pub mod error;
pub mod stack;
pub mod tcp;
pub mod tunnel;
pub mod wire;

pub use crate::error::UtcpError;
pub use crate::stack::{Command, Engine, StackConfig};
pub use crate::tcp::socket::TcpSocketAddr;
