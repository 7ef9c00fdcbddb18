//! Builds bootable UEFI disk images: a protective MBR, a GUID partition table
//! with one EFI System Partition, and a FAT32 volume inside it holding the
//! files of a manifest at their logical paths.
use vstd::prelude::*;

pub mod bytes;
pub mod determinism;
pub mod fat;
pub mod gpt;
pub mod image;
pub mod laws;
pub mod layout;
pub mod manifest;
pub mod name;
pub mod tree;
pub mod volume;

verus! {

/// Why an image could not be built.
#[derive(Debug, Clone, PartialEq, Eq)]
pub enum BuildError {
    /// The manifest is empty, holds a malformed path, or holds no content.
    InvalidManifest,
    /// Manifest entries `first` and `second` name the same path, or one of them
    /// lies below the other.
    PathConflict { first: usize, second: usize },
    /// Two entries of one directory, given by their logical paths, share an 8.3 name.
    NameCollision { first: Vec<u8>, second: Vec<u8> },
    /// The volume would need more clusters than FAT32 can address.
    SizeOverflow { clusters: u64 },
    /// The image could not be written to its destination. The library itself
    /// writes nothing; the caller that owns the destination reports this.
    WriteFailure,
}

} // verus!
