use vstd::prelude::*;

use crate::block_info::DiskInfo;
use crate::directory::Directory;
use crate::file::{File, FileFlag};
use crate::leaf::Leaf;
use crate::system::{IoError, IoResult};

verus! {

/// On-disk format decoder, supplied by the host. Nothing is assumed of the
/// values an implementation returns: the library states its own results
/// relative to whatever the decoder handed back.
pub trait Format {
    /// Decode the directory block at `block_idx` into its entries.
    fn parse_node(&self, block_idx: usize) -> Result<Vec<Leaf>, ()>;

    /// Enumerate, in order, every device block of the object whose chain
    /// starts at `start_idx`.
    fn get_block_chain(&self, start_idx: usize) -> Result<Vec<usize>, ()>;

    /// Decode the device's superblock.
    fn parse_super_block(&self) -> DiskInfo;

    /// The device this decoder is bound to.
    fn get_device(&self) -> usize;
}

/// Block-level cache, supplied by the host. A call moves the bytes of
/// `data[start..end]` between the buffer and absolute device byte offset
/// `addr` on device `device_id`. An implementation must keep the buffer's
/// length and must touch no byte outside the window it was given; the
/// contract records that frame and nothing more, so nothing proved here
/// depends on what the device returns.
pub trait CacheBuffer {
    fn read(&mut self, device_id: usize, data: &mut Vec<u8>, start: usize, end: usize, addr: usize)
        requires
            start <= end <= old(data)@.len(),
        ensures
            final(data)@.len() == old(data)@.len(),
            forall|i: int|
                0 <= i < old(data)@.len() && !(start <= i < end) ==> final(data)@[i] == old(
                    data,
                )@[i],
    ;

    fn write(&mut self, device_id: usize, data: &[u8], start: usize, end: usize, addr: usize)
        requires
            start <= end <= data@.len(),
    ;
}

/// The operation surface of the filesystem facade, for hosts that hold
/// it behind one abstraction. `inv` is the validity every operation
/// assumes and keeps; the facade defines it as its own well-formedness.
pub trait SystemOp {
    spec fn inv(&self) -> bool;

    /// Whether a fresh file handle can still be materialized; operations
    /// that may allocate one ask for it.
    spec fn can_allocate(&self) -> bool;

    fn open(&mut self, path: String, flag: FileFlag) -> (r: Result<File, IoError>)
        requires
            old(self).inv(),
            old(self).can_allocate(),
        ensures
            final(self).inv(),
    ;

    /// Directory information only.
    fn enter(&mut self, path: String) -> (r: Result<Directory, IoError>)
        requires
            old(self).inv(),
        ensures
            final(self).inv(),
    ;

    /// File information only, with no state transition.
    fn get_file(&mut self, path: String) -> (r: Result<File, IoError>)
        requires
            old(self).inv(),
            old(self).can_allocate(),
        ensures
            final(self).inv(),
    ;

    fn read(&mut self, id: usize, data: &mut Vec<u8>) -> (r: IoResult)
        requires
            old(self).inv(),
        ensures
            final(self).inv(),
    ;

    fn write(&mut self, id: usize, data: &[u8]) -> (r: IoResult)
        requires
            old(self).inv(),
        ensures
            final(self).inv(),
    ;

    fn total_size(&self) -> usize;

    fn block_size(&self) -> usize;

    /// Whether this filesystem holds the given file identifier.
    fn contain(&self, id: usize) -> bool;

    /// Reload the cached information under the given directory.
    fn refresh(&mut self, dir: &Directory) -> (r: Result<(), IoError>)
        requires
            old(self).inv(),
        ensures
            final(self).inv(),
    ;

    fn check(&self) -> usize;
}

} // verus!
