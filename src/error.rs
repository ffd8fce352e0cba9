//! The errors of the protocol core.

use vstd::prelude::*;
use crate::packets::ErrPacket;

verus! {

/// What went wrong in a command.
#[derive(Clone, Debug, PartialEq, Eq)]
pub enum MyError {
    /// A frame carried another sequence id than the one expected.
    OutOfSync,
    /// A packet was unexpected or malformed, or the server is not supported.
    Protocol,
    /// The server answered with an ERR packet.
    Server(ErrPacket),
    /// A statement was executed with another number of parameters than it takes.
    ParamCountMismatch { expected: u16, supplied: usize },
    /// An outbound packet is larger than the server accepts.
    PacketTooLarge,
    /// The local-file callback failed.
    LocalInfile,
    /// The connection cannot take this step now: another exchange is under
    /// way, or the connection is broken.
    NotReady,
}

} // verus!
