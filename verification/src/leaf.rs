use vstd::prelude::*;

verus! {

/// Kind of one directory entry.
#[derive(Debug, Clone, Copy, PartialEq, Eq, Structural)]
pub enum LeafType {
    File,
    Directory,
}

/// Mathematical mirror of a `Leaf`, used by the contracts.
pub ghost struct LeafV {
    pub name: Seq<char>,
    pub ltype: LeafType,
    pub block_idx: int,
    pub size: int,
}

/// One directory-entry snapshot: name, kind, starting block index and size.
/// Immutable once produced by the decoder; cloned freely.
pub struct Leaf {
    pub name: String,
    pub ltype: LeafType,
    pub block_idx: usize,
    pub size: usize,
}

impl View for Leaf {
    type V = LeafV;

    open spec fn view(&self) -> LeafV {
        LeafV {
            name: self.name@,
            ltype: self.ltype,
            block_idx: self.block_idx as int,
            size: self.size as int,
        }
    }
}

impl Leaf {
    pub fn is_file(&self) -> (r: bool)
        ensures
            r == (self@.ltype is File),
    {
        self.ltype == LeafType::File
    }

    pub fn is_directory(&self) -> (r: bool)
        ensures
            r == (self@.ltype is Directory),
    {
        self.ltype == LeafType::Directory
    }
}

impl Clone for Leaf {
    fn clone(&self) -> (r: Self)
        ensures
            r@ == self@,
    {
        Leaf {
            name: self.name.clone(),
            ltype: self.ltype,
            block_idx: self.block_idx,
            size: self.size,
        }
    }
}

} // verus!
