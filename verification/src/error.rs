//! The failures that the engine reports.

use vstd::prelude::*;

verus! {

/// What can go wrong. Parsing and checksum failures are absorbed by the
/// caller's loop: the offending frame is dropped. A failure of a command goes
/// back to the command's sender. A device failure ends the loop.
#[derive(Debug, Clone, PartialEq, Eq)]
pub enum UtcpError {
    /// The frame transport failed.
    Device(String),
    /// A header was too short or contradicted itself.
    Malformed,
    /// A checksum did not match.
    Checksum,
    /// A command named a connection that the table does not hold.
    ConnNotFound,
    /// The operation cannot make progress now.
    WouldBlock,
    /// A capability that the engine does not have was asked for.
    NotImplemented(&'static str),
    /// The handshake did not complete in time.
    ConnectTimeout,
    /// The connection was given up after too many retransmissions.
    ConnReset,
}

} // verus!
