//! Metadata and space-allocation core of a shared-memory file system.
//!
//! Multiple hosts map the same physical memory device and agree on file
//! layout through an append-only, CRC-protected log of operations.  This
//! crate validates the on-device superblock and log, rebuilds the free/used
//! bitmap by replaying the log, runs a first-fit contiguous allocator over
//! that bitmap, and translates file creation and lookup into byte ranges.
//!
//! Type names follow the on-media format's own naming.
#![allow(non_camel_case_types)]
use vstd::prelude::*;

pub mod bitmap;
pub mod crc;
pub mod meta;
pub mod session;

verus! {

/// Superblock magic number.
pub const FAMFS_SUPER_MAGIC: u64 = 0x87b282ff;

/// Log magic number.
pub const FAMFS_LOG_MAGIC: u64 = 0xbadcafef00d;

/// Device offset of the log; the superblock region ends here.
pub const FAMFS_LOG_OFFSET: u64 = 0x200000;

/// Default byte length of the log region.
pub const FAMFS_LOG_LEN: u64 = 0x800000;

/// Reserved superblock region size (equal to the log offset).
pub const FAMFS_SUPERBLOCK_SIZE: u64 = 0x200000;

/// Default allocation unit: 2 MiB.
pub const FAMFS_ALLOC_UNIT: u64 = 0x200000;

/// Required on-media format version.
pub const FAMFS_CURRENT_VERSION: u64 = 47;

/// Maximum length of a relative path stored in a log entry.
pub const FAMFS_MAX_PATHLEN: usize = 80;

/// Maximum number of extents in a simple map.
pub const FAMFS_MAX_SIMPLE_EXTENTS: usize = 16;

/// Maximum number of stripe groups in an interleaved map.
pub const FAMFS_MAX_INTERLEAVED_EXTENTS: usize = 1;

/// Device name length in the superblock's device descriptor.
pub const FAMFS_DEVNAME_LEN: usize = 64;

/// File flag: all hosts may read.
pub const FAMFS_FM_ALL_HOSTS_RO: u32 = 1;

/// File flag: all hosts may read and write.
pub const FAMFS_FM_ALL_HOSTS_RW: u32 = 2;

/// Errors surfaced by the metadata core.
///
/// Device- and format-level violations (`FormatError`, `CorruptionDetected`,
/// `UnsupportedEntry`) mean the shared, externally authored layout cannot be
/// trusted; `LogFull` and `AllocationExhausted` are ordinary resource
/// conditions the caller acts on; `PathTooLong` rejects a path that does not
/// fit the fixed on-media path buffer.
#[derive(Clone, Copy, Debug, PartialEq, Eq, Structural)]
pub enum FamfsError {
    FormatError,
    LogFull,
    AllocationExhausted,
    CorruptionDetected,
    UnsupportedEntry,
    PathTooLong,
}

} // verus!
