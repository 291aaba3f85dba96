//! The error type shared by the codec, the ledger state machine and the
//! block processor.
use vstd::prelude::*;

verus! {

/// Every failure the engine can report.
///
/// Business-level rejections (bad signature, unknown sender, short balance)
/// are not errors: they are folded into "not applied" by the state machine.
/// These variants are the faults that propagate to the caller.
#[derive(Clone, Copy, Debug, PartialEq, Eq, Structural)]
pub enum EasyFraudError {
    TransactionDeserializationError,
    SigningError,
    ChainIDMismatch,
    InvalidGenesisHeight,
    GenesisAccountDeserialization,
    TreeInsertionError,
    NullApphash,
    InvalidGenesisAppHash,
    TreeGetError,
    SenderNotInitialized,
    CouldNotRevert,
    InvalidSignature,
    NoRoot,
    SerializePairsError,
    DeserializePairsError,
}

} // verus!
