//! Error kinds raised by the relay, with their user-visible messages.

use vstd::prelude::*;

verus! {

/// Every failure the relay can report. All errors are local and
/// recoverable: a rejected operation never leaves the relay state
/// partially mutated.
#[derive(Clone, Copy, PartialEq, Eq, Debug, Structural)]
pub enum Error {
    /// The relay was asked to initialize a second time.
    AlreadyInitialized,
    /// A raw header was not exactly 80 bytes, or its compact difficulty
    /// encoding was malformed.
    InvalidHeaderSize,
    /// A submitted header's hash is already stored.
    DuplicateBlock,
    /// A header's previous-block hash could not be resolved.
    PrevBlock,
    /// A header's hash, read as a big integer, exceeds its own decoded
    /// difficulty target: the proof of work is insufficient.
    LowDiff,
    /// A header's encoded target differs from the target the difficulty
    /// schedule expects at its position.
    DiffTargetHeader,
    /// A transaction id was not a well-formed 32-byte value.
    MalformedTxid,
    /// A block has fewer main-chain confirmations than requested, or
    /// sits on a fork.
    Confirmations,
    /// A Merkle proof did not reproduce the block's Merkle root.
    InvalidMerkleProof,
    /// No stored header matches the given block hash.
    HeaderNotFound,
    /// The host has paused the relay; mutating operations fail fast.
    Shutdown,
}

impl Error {
    /// The human-readable text for this error kind. Downstream
    /// consumers match on the exact wording, so it never changes.
    pub open spec fn message_spec(self) -> Seq<char> {
        match self {
            Error::AlreadyInitialized => "Already initialized"@,
            Error::InvalidHeaderSize => "Invalid block header size"@,
            Error::DuplicateBlock => "Block already stored"@,
            Error::PrevBlock => "Previous block hash not found"@,
            Error::LowDiff => "PoW hash does not meet difficulty target of header"@,
            Error::DiffTargetHeader => "Incorrect difficulty target specified in block header"@,
            Error::MalformedTxid => "Malformed transaction identifier"@,
            Error::Confirmations => "Transaction has less confirmations than requested"@,
            Error::InvalidMerkleProof => "Invalid Merkle Proof"@,
            Error::HeaderNotFound => "Block header not found for given hash"@,
            Error::Shutdown => "internal error"@,
        }
    }

    pub fn message(&self) -> (r: &'static str)
        ensures
            r@ == self.message_spec(),
    {
        match self {
            Error::AlreadyInitialized => "Already initialized",
            Error::InvalidHeaderSize => "Invalid block header size",
            Error::DuplicateBlock => "Block already stored",
            Error::PrevBlock => "Previous block hash not found",
            Error::LowDiff => "PoW hash does not meet difficulty target of header",
            Error::DiffTargetHeader => "Incorrect difficulty target specified in block header",
            Error::MalformedTxid => "Malformed transaction identifier",
            Error::Confirmations => "Transaction has less confirmations than requested",
            Error::InvalidMerkleProof => "Invalid Merkle Proof",
            Error::HeaderNotFound => "Block header not found for given hash",
            Error::Shutdown => "internal error",
        }
    }
}

} // verus!
