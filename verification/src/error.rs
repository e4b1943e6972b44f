use vstd::prelude::*;

verus! {

/// Why an operation on the volume did not complete.
#[derive(Clone, Copy, Debug, PartialEq, Eq, Structural)]
pub enum Error {
    /// The block device reported a failed read or write.
    Io,
    /// A sector or a FAT index lies outside the region it belongs to.
    OutOfRange,
    /// The cluster chain, or the file, has no more bytes.
    EndOfStream,
    /// The records of a long name do not fit together. The walk through a
    /// directory meets this by discarding the name, and goes on.
    Corruption,
    /// A path component is absent or is of the wrong kind.
    NotFound,
    /// The boot sector does not describe a FAT12, FAT16 or FAT32 volume
    /// that this device can hold.
    UnsupportedFatType,
    /// The operation is not defined yet.
    Unimplemented,
}

} // verus!
