//! The TCP side of the engine: congestion control, the connection state
//! machine and socket addresses.

pub mod congestion;
pub mod conn;
pub mod socket;
