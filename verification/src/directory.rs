use vstd::prelude::*;

verus! {

/// Immutable snapshot of one directory's contents, handed to callers of
/// `enter`. Carries no live reference back into the cached tree.
pub struct Directory {
    pub name: String,
    pub block_idx: usize,
    pub device_id: usize,
    pub path: String,
    pub item: Vec<DirectoryItem>,
}

/// One entry of a `Directory` snapshot: a name tagged with its kind.
pub struct DirectoryItem {
    pub name: String,
    pub itype: DirItemType,
}

impl DirectoryItem {
    pub fn is_file(&self) -> (r: bool)
        ensures
            r == (self.itype is File),
    {
        self.itype == DirItemType::File
    }

    pub fn is_dir(&self) -> (r: bool)
        ensures
            r == (self.itype is Directory),
    {
        self.itype == DirItemType::Directory
    }
}

/// Kind of a `DirectoryItem`.
#[derive(Debug, Clone, Copy, PartialEq, Eq, Structural)]
pub enum DirItemType {
    Directory,
    File,
}

} // verus!
