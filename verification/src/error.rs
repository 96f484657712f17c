use vstd::prelude::*;

verus! {

/// Why a header was found corrupted.
#[derive(Clone, Copy, Debug, PartialEq, Eq, Structural)]
pub enum Corruption {
    /// The primary commit slot has a bad checksum although it was written with a
    /// two-phase commit.
    PrimaryCorruptedDespiteTwoPhaseCommit,
    /// Both commit slots have bad checksums.
    BothCommitSlotsCorrupted,
    /// A commit slot carries a file format version that is neither the current
    /// one nor an older one that can be upgraded.
    UnsupportedFileFormatVersion(u8),
}

/// Errors of the storage layer.
#[derive(Clone, Copy, Debug, PartialEq, Eq, Structural)]
pub enum StorageError {
    Corrupted(Corruption),
}

/// Errors met when opening a database.
#[derive(Clone, Copy, Debug, PartialEq, Eq, Structural)]
pub enum DatabaseError {
    /// The file was written in an older format (the version is given) and must
    /// be upgraded first.
    UpgradeRequired(u8),
    Storage(StorageError),
}

} // verus!
