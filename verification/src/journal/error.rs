//! Why a journal operation failed.
use crate::wasi_types::Fd;
use vstd::prelude::*;

verus! {

/// An entry or a record could not be turned into the other.
#[derive(Clone, Copy, Debug, PartialEq, Eq, Structural)]
pub enum SerializationError {
    /// The entry holds more than one record can carry.
    PayloadTooLarge,
    /// The record carries a known tag with fields that do not fit it, or
    /// claims more words than its payload holds.
    Malformed,
    /// The record was written in a format this reader does not know.
    UnsupportedVersion { version: u8 },
    /// An entry of an unknown kind stands where it cannot be skipped.
    RequiredEntryUnknown { tag: u16 },
}

/// The backend could not keep an entry.
#[derive(Clone, Copy, Debug, PartialEq, Eq, Structural)]
pub enum StorageError {
    /// The backend holds as many entries, or bytes, as it was made for.
    CapacityExceeded,
    /// The storage under the backend failed; the code is the host's.
    Io { code: i32 },
}

/// An entry cannot follow the state it meets.
#[derive(Clone, Copy, Debug, PartialEq, Eq, Structural)]
pub enum OrderingViolation {
    /// The entry speaks of a descriptor that is not open.
    DescriptorNotOpen { fd: Fd },
    /// The entry speaks of a thread that is not running.
    ThreadNotRunning { tid: u32 },
    /// The entry comes after the process has exited.
    ProcessExited,
    /// A checkpoint begins inside another, or ends outside any.
    UnbalancedCheckpoint,
}

/// An entry could not be applied to the runtime.
#[derive(Clone, Copy, Debug, PartialEq, Eq, Structural)]
pub enum ReplayError {
    /// The entry reaches beyond the end of linear memory.
    MemoryOutOfBounds { offset: u64, len: u64 },
    /// The entry opens a descriptor whose number is taken.
    DescriptorInUse { fd: Fd },
    /// The entry spawns a thread whose id is taken.
    ThreadInUse { tid: u32 },
    /// The entry opens a descriptor whose number the table has no slot for.
    DescriptorOutOfRange { fd: Fd },
    /// The entry spawns a thread whose id the table has no slot for.
    ThreadOutOfRange { tid: u32 },
    /// A cursor or a counter would leave the range of its type.
    Overflow,
    /// The driver was asked to go on after it had stopped.
    NotReplaying,
}

/// What went wrong, whichever journal it went wrong in.
#[derive(Clone, Copy, Debug, PartialEq, Eq, Structural)]
pub enum Fault {
    Serialization(SerializationError),
    Storage(StorageError),
    Order(OrderingViolation),
    Replay(ReplayError),
}

/// Everything that can go wrong in a journal.
#[derive(Clone, Copy, Debug, PartialEq, Eq, Structural)]
pub enum JournalError {
    Serialization(SerializationError),
    Storage(StorageError),
    Order(OrderingViolation),
    Replay(ReplayError),
    /// One of the journals behind a broadcast failed: which one, by its
    /// position, and what went wrong in it.
    Backend { index: usize, fault: Fault },
}

impl JournalError {
    /// What went wrong, without the journal it went wrong in.
    pub open spec fn spec_fault(self) -> Fault {
        match self {
            JournalError::Serialization(e) => Fault::Serialization(e),
            JournalError::Storage(e) => Fault::Storage(e),
            JournalError::Order(e) => Fault::Order(e),
            JournalError::Replay(e) => Fault::Replay(e),
            JournalError::Backend { fault, .. } => fault,
        }
    }

    /// What went wrong, without the journal it went wrong in.
    #[verifier::when_used_as_spec(spec_fault)]
    pub fn fault(self) -> (fault: Fault)
        ensures
            fault == self.spec_fault(),
    {
        match self {
            JournalError::Serialization(e) => Fault::Serialization(e),
            JournalError::Storage(e) => Fault::Storage(e),
            JournalError::Order(e) => Fault::Order(e),
            JournalError::Replay(e) => Fault::Replay(e),
            JournalError::Backend { fault, .. } => fault,
        }
    }
}

} // verus!
