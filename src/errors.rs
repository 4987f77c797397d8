use vstd::prelude::*;

verus! {

/// Errors that the parser can return while navigating the replay buffer.
#[derive(Debug, Clone, Copy, PartialEq, Eq, Structural)]
pub enum HyperstoneError {
    /// The replay could not be verified to be a valid Source 2 replay: it does
    /// not start with the signature.
    UnverifiableBuffer,
    /// The buffer is truncated: it ends inside the size header, or an outer
    /// message could not be read because the buffer ends inside one of its
    /// varints or inside its payload.
    UnknownOuterMessage,
    /// The payload of a message flagged as compressed is not a valid Snappy block.
    DecompressionError,
    /// The command of an outer message has no entry in the command registry.
    /// There are two potential causes:
    ///   1. The data in the replay buffer is corrupted; or
    ///   2. The registry is out-of-date with the replay's protocol version.
    UnknownDemoCommand,
}

} // verus!
