use vstd::prelude::*;

verus! {

/// Superblock summary, read once when a `FileSystem` is constructed.
#[derive(Debug, Clone, Copy)]
pub struct DiskInfo {
    pub stype: SystemType,
    pub total_size: usize,
    pub block_size: usize,
    pub root_directory_block_idx: usize,
    /// Device byte address at which block 0 begins.
    pub block_start_addr: usize,
}

/// Detected on-disk format kind.
#[derive(Debug, Clone, Copy, PartialEq, Eq, Structural)]
pub enum SystemType {
    FAT32,
    Tianmu,
    Unknown,
}

} // verus!
