//! The reasons for which an operation of the library is refused.

use crate::modmap::IntegralModId;
use crate::modmap::NumFunUid;
use vstd::prelude::*;

verus! {

/// Why an operation was refused.
#[derive(Debug, PartialEq, Eq)]
pub enum Error {
    /// No argument size type has this number.
    UnsupportedArgSizeType(u16),
    /// A module with this number is already there.
    DuplicateModule(IntegralModId),
    /// No module has this number.
    UnknownModule(IntegralModId),
    /// This function is already there.
    DuplicateFunction(NumFunUid),
    /// There is no such function.
    UnknownFunction(NumFunUid),
    /// A logical buffer is too small to hold more than its size field.
    NoSpaceForLength,
    /// A buffer ends before the value that was to be read from it.
    NotEnoughBytes,
    /// A number was to be written at a position that is no multiple of its size.
    UnalignedOffset,
    /// There is no logical buffer with this index.
    InvalidBufferIndex(usize),
    /// A logical buffer starts past the end of the shared memory.
    OffsetTooLarge { offset: usize, len: usize },
    /// A logical buffer runs past the end of the shared memory.
    BufferOutOfBounds { offset: usize, len: usize },
    /// An argument reader took nothing although this many bytes were there.
    ReaderStuck(usize),
    /// An empty buffer came in the middle of a packet.
    EmptyBufferWithinPacket,
    /// A path to checkpoints does not fit into the parameters.
    CheckpointPathTooLong,
    /// The directory of a test output cannot be told from its path.
    NoParentDirectory,
    /// A path to a test output ends in no file name.
    NoFileName,
    /// A path that should be a directory is none.
    NotADirectory(String),
    /// There are more threads or calls than their numbers can tell apart.
    TooManyToCount,
    /// A round of checkpointed testing has no test to checkpoint.
    NoCheckpointCase,
    /// No packets of this function were captured.
    NoPackets(NumFunUid),
    /// A packet's index is not below the number of packets.
    PacketIndexTooLarge { index: usize, count: usize },
    /// Neither a command nor a file to import from was given.
    NoCommand,
    /// Testing with checkpoints needs a place for the outputs.
    NoOutput,
    /// Waiting for a full buffer failed.
    WaitFull(String),
    /// Posting a free buffer failed.
    PostFree { index: usize, reason: String },
}

} // verus!
