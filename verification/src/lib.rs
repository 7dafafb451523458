//! UnFS: a fixed-block-size filesystem whose on-disk structures are all
//! exactly one 512-byte sector.  A volume holds a superblock at sector 1,
//! a directory chain of fragment records enumerating node (file) sectors,
//! and per-node data chains describing the sectors that hold file bytes.
//!
//! The block device is modelled as an in-memory sector store ([`disk::Disk`]);
//! every operation of the engine is specified and verified against the byte
//! content of that store.  Access to one filesystem instance is assumed to be
//! serialized by its owner: nothing here locks, and a multi-threaded host
//! must put its own mutual-exclusion boundary around the instance.

use vstd::prelude::*;

pub mod chain;
pub mod codec;
pub mod disk;
pub mod fs;
pub mod laws;
pub mod layout;
pub mod platform;

verus! {

/// Number of bytes in one device sector, and in each on-disk record.
pub const SECTOR_BYTES: usize = 512;

/// Failures surfaced by the filesystem engine.
///
/// An invalid superblock is not an error value: mounting is permissive and
/// callers consult [`crate::fs::UnFS::valid`] before trusting other results.
/// Scratch buffers are owned values from the global allocator, so allocation
/// failure never surfaces here as a value.
#[derive(Clone, Copy, Debug, PartialEq, Eq, Structural)]
pub enum FsError {
    /// A device transfer addressed sectors outside the volume.
    IoError,
    /// No node of the requested name exists in the directory chain.
    NotFound,
    /// The operation would need multi-fragment or multi-extent data
    /// handling, which this engine does not implement.
    Unsupported,
    /// The buffer handed to a save does not equal the destination extent's
    /// byte capacity.
    SizeMismatch,
}

} // verus!
