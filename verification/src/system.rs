use vstd::prelude::*;

use crate::directory::{DirItemType, Directory, DirectoryItem};
use crate::file::{open_outcome, File, FileError, FileFlag, FileState, FileStateV, FileV};
use crate::file_id::{mint_of, IdManager};
use crate::leaf::Leaf;
use crate::node::{
    leaf_ready, lemma_node_like_refl, lookup_leaf, lookup_node, named_idx, node_like, node_ready,
    node_wf, LeafLookup, Node, NodeError, NodeLookup,
};
use crate::path::format_path_spec;
use crate::path::format_path_str;
use crate::path::seg_of;
use crate::require::{CacheBuffer, Format, SystemOp};

verus! {

pub type IoResult = Result<usize, IoError>;

/// Failure of a `FileSystem` operation.
#[derive(Debug, Clone, Copy, PartialEq, Eq, Structural)]
pub enum IoError {
    /// A write was requested on a handle that is not writable.
    WriteToReadOnly,
    /// A read was requested on a handle that is not readable.
    ReadFromWrite,
    /// The handle identifier is not present in the handle table.
    FileClosed,
    /// Tree resolution found no entry at the given path.
    NoEntry,
    /// The resolved entry is not file-kind where a file was needed.
    NotFile,
    /// The requested open flag is not valid for the operation.
    FlagErr(FileFlag),
    /// The decoder reported a failure; it is fatal to the current call.
    DecodeErr,
    /// A block's absolute byte address exceeds the machine limit.
    AddrOverflow,
}

/// The `IoError` a state-machine failure surfaces as.
pub open spec fn io_of_file_err(e: FileError) -> IoError {
    match e {
        FileError::WriteToReadOnly => IoError::WriteToReadOnly,
        FileError::ReadFromWrite => IoError::ReadFromWrite,
        FileError::FlagErr(f) => IoError::FlagErr(f),
    }
}

/// Index of the first handle of `files` carrying `id`, or -1 when none.
pub open spec fn id_idx(files: Seq<File>, id: int) -> int
    decreases files.len(),
{
    if files.len() == 0 {
        -1
    } else if files[0]@.id == id {
        0
    } else {
        let t = id_idx(files.drop_first(), id);
        if t == -1 {
            -1
        } else {
            1 + t
        }
    }
}

/// Index of the first handle of `files` keyed by path `p`, or -1.
pub open spec fn path_idx(files: Seq<File>, p: Seq<char>) -> int
    decreases files.len(),
{
    if files.len() == 0 {
        -1
    } else if files[0]@.path == p {
        0
    } else {
        let t = path_idx(files.drop_first(), p);
        if t == -1 {
            -1
        } else {
            1 + t
        }
    }
}

/// The first index carrying `id` determines `id_idx`.
pub proof fn lemma_id_idx_at(files: Seq<File>, id: int, i: int)
    requires
        0 <= i < files.len(),
        files[i]@.id == id,
        forall|j: int| 0 <= j < i ==> (#[trigger] files[j])@.id != id,
    ensures
        id_idx(files, id) == i,
    decreases i,
{
    if i > 0 {
        let t = files.drop_first();
        assert(forall|j: int| 0 <= j < t.len() ==> t[j] == files[j + 1]);
        lemma_id_idx_at(t, id, i - 1);
    }
}

/// No handle carries `id`, so `id_idx` reports -1.
pub proof fn lemma_id_idx_none(files: Seq<File>, id: int)
    requires
        forall|j: int| 0 <= j < files.len() ==> (#[trigger] files[j])@.id != id,
    ensures
        id_idx(files, id) == -1,
    decreases files.len(),
{
    if files.len() > 0 {
        let t = files.drop_first();
        assert(forall|j: int| 0 <= j < t.len() ==> t[j] == files[j + 1]);
        lemma_id_idx_none(t, id);
    }
}

/// The first index keyed by `p` determines `path_idx`.
pub proof fn lemma_path_idx_at(files: Seq<File>, p: Seq<char>, i: int)
    requires
        0 <= i < files.len(),
        files[i]@.path == p,
        forall|j: int| 0 <= j < i ==> (#[trigger] files[j])@.path != p,
    ensures
        path_idx(files, p) == i,
    decreases i,
{
    if i > 0 {
        let t = files.drop_first();
        assert(forall|j: int| 0 <= j < t.len() ==> t[j] == files[j + 1]);
        lemma_path_idx_at(t, p, i - 1);
    }
}

/// No handle is keyed by `p`, so `path_idx` reports -1.
pub proof fn lemma_path_idx_none(files: Seq<File>, p: Seq<char>)
    requires
        forall|j: int| 0 <= j < files.len() ==> (#[trigger] files[j])@.path != p,
    ensures
        path_idx(files, p) == -1,
    decreases files.len(),
{
    if files.len() > 0 {
        let t = files.drop_first();
        assert(forall|j: int| 0 <= j < t.len() ==> t[j] == files[j + 1]);
        lemma_path_idx_none(t, p);
    }
}

/// Bytes a block-chain transfer moves for a buffer of `buf_len` bytes
/// over `chain_len` blocks of `bs` bytes each: the whole buffer, or every
/// chain block's worth of bytes when the buffer is longer than the chain.
pub open spec fn xfer_len(chain_len: nat, buf_len: nat, bs: nat) -> nat {
    if buf_len <= chain_len * bs {
        buf_len
    } else {
        chain_len * bs
    }
}

/// Whether every chain block needed to cover `buf_len` bytes has an
/// absolute byte address within the machine limit.
pub open spec fn addrs_ok(chain: Seq<usize>, buf_len: nat, bs: nat, base: nat) -> bool {
    forall|k: int|
        0 <= k < chain.len() && k * bs < buf_len ==> base + (#[trigger] chain[k]) * bs
            <= usize::MAX
}

proof fn lemma_mul_le(a: int, b: int, c: int)
    by (nonlinear_arith)
    requires
        0 <= a <= b,
        0 <= c,
    ensures
        a * c <= b * c,
{
}

proof fn lemma_mul_step(a: int, b: int)
    by (nonlinear_arith)
    ensures
        (a + 1) * b == a * b + b,
{
}

/// Stream bytes from the device into `data`, one chain block at a time:
/// block `k` of `chain` fills the buffer window starting at `k` times the
/// block size, at absolute device offset `block_start + chain[k]` times
/// the block size, until the buffer or the chain runs out. Bytes past the
/// transferred count are never touched. The transfer fails only when a
/// needed block's absolute address would exceed the machine limit.
#[verifier::loop_isolation(false)]
pub fn read_block_chain<C: CacheBuffer>(
    cache: &mut C,
    device_id: usize,
    block_start: usize,
    block_size: usize,
    chain: &Vec<usize>,
    data: &mut Vec<u8>,
) -> (r: IoResult)
    ensures
        final(data)@.len() == old(data)@.len(),
        forall|i: int|
            xfer_len(chain@.len(), old(data)@.len(), block_size as nat) <= i < old(data)@.len()
                ==> final(data)@[i] == old(data)@[i],
        match r {
            Ok(n) => n == xfer_len(chain@.len(), old(data)@.len(), block_size as nat) && addrs_ok(
                chain@,
                old(data)@.len(),
                block_size as nat,
                block_start as nat,
            ),
            Err(e) => e is AddrOverflow && !addrs_ok(
                chain@,
                old(data)@.len(),
                block_size as nat,
                block_start as nat,
            ),
        },
{
    let len = data.len();
    let mut idx: usize = 0;
    let mut st: usize = 0;
    let mut total: usize = 0;
    while idx < chain.len() && st < len
        invariant
            data@.len() == old(data)@.len(),
            len == old(data)@.len(),
            idx <= chain@.len(),
            st <= len,
            st as int == (if idx * (block_size as int) <= len {
                idx * (block_size as int)
            } else {
                len as int
            }),
            total == st,
            forall|i: int| st <= i < len ==> data@[i] == old(data)@[i],
            forall|k: int|
                0 <= k < idx && k * (block_size as int) < len ==> block_start + (
                #[trigger] chain@[k]) * (block_size as int) <= usize::MAX,
        decreases chain@.len() - idx,
    {
        let ed = if len - st < block_size {
            len
        } else {
            st + block_size
        };
        let b = chain[idx];
        proof {
            assert(st as int == idx * (block_size as int));
            lemma_mul_le(idx as int, chain@.len() as int, block_size as int);
        }
        let prod = match b.checked_mul(block_size) {
            None => {
                return Err(IoError::AddrOverflow);
            },
            Some(q) => q,
        };
        let addr = match prod.checked_add(block_start) {
            None => {
                return Err(IoError::AddrOverflow);
            },
            Some(a) => a,
        };
        cache.read(device_id, data, st, ed, addr);
        proof {
            lemma_mul_step(idx as int, block_size as int);
        }
        total = total + (ed - st);
        st = ed;
        idx = idx + 1;
    }
    proof {
        if st >= len {
            assert forall|k: int|
                0 <= k < chain@.len() && k * (block_size as nat) < len implies block_start + (
            #[trigger] chain@[k]) * (block_size as nat) <= usize::MAX by {
                if k >= idx {
                    lemma_mul_le(idx as int, k, block_size as int);
                }
            }
            lemma_mul_le(idx as int, chain@.len() as int, block_size as int);
        }
    }
    Ok(total)
}

/// Stream bytes from `data` to the device, one chain block at a time,
/// mirroring `read_block_chain`'s windows, offsets and failure rule.
#[verifier::loop_isolation(false)]
pub fn write_block_chain<C: CacheBuffer>(
    cache: &mut C,
    device_id: usize,
    block_start: usize,
    block_size: usize,
    chain: &Vec<usize>,
    data: &[u8],
) -> (r: IoResult)
    ensures
        match r {
            Ok(n) => n == xfer_len(chain@.len(), data@.len(), block_size as nat) && addrs_ok(
                chain@,
                data@.len(),
                block_size as nat,
                block_start as nat,
            ),
            Err(e) => e is AddrOverflow && !addrs_ok(
                chain@,
                data@.len(),
                block_size as nat,
                block_start as nat,
            ),
        },
{
    let len = data.len();
    let mut idx: usize = 0;
    let mut st: usize = 0;
    let mut total: usize = 0;
    while idx < chain.len() && st < len
        invariant
            len == data@.len(),
            idx <= chain@.len(),
            st <= len,
            st as int == (if idx * (block_size as int) <= len {
                idx * (block_size as int)
            } else {
                len as int
            }),
            total == st,
            forall|k: int|
                0 <= k < idx && k * (block_size as int) < len ==> block_start + (
                #[trigger] chain@[k]) * (block_size as int) <= usize::MAX,
        decreases chain@.len() - idx,
    {
        let ed = if len - st < block_size {
            len
        } else {
            st + block_size
        };
        let b = chain[idx];
        proof {
            assert(st as int == idx * (block_size as int));
            lemma_mul_le(idx as int, chain@.len() as int, block_size as int);
        }
        let prod = match b.checked_mul(block_size) {
            None => {
                return Err(IoError::AddrOverflow);
            },
            Some(q) => q,
        };
        let addr = match prod.checked_add(block_start) {
            None => {
                return Err(IoError::AddrOverflow);
            },
            Some(a) => a,
        };
        cache.write(device_id, data, st, ed, addr);
        proof {
            lemma_mul_step(idx as int, block_size as int);
        }
        total = total + (ed - st);
        st = ed;
        idx = idx + 1;
    }
    proof {
        if st >= len {
            assert forall|k: int|
                0 <= k < chain@.len() && k * (block_size as nat) < len implies block_start + (
            #[trigger] chain@[k]) * (block_size as nat) <= usize::MAX by {
                if k >= idx {
                    lemma_mul_le(idx as int, k, block_size as int);
                }
            }
            lemma_mul_le(idx as int, chain@.len() as int, block_size as int);
        }
    }
    Ok(total)
}

/// The filesystem facade: owns the handle table, the cached directory
/// tree, the superblock summary, and the two collaborators. One instance
/// assumes exclusive access per call; the host serializes concurrent use.
pub struct FileSystem<C: CacheBuffer, F: Format> {
    pub id_mgr: IdManager,
    pub files: Vec<File>,
    pub cache_buffer: C,
    pub format: F,
    pub total_size: usize,
    pub block_size: usize,
    pub block_start: usize,
    pub device_id: usize,
    pub root: Node,
}

impl<C: CacheBuffer, F: Format> FileSystem<C, F> {
    /// Validity of the facade: the cached tree is well-formed; the handle
    /// table keys handles by distinct paths and distinct identifiers, all
    /// past the two reserved for the standard streams; and the manager's
    /// counter stands above every identifier handed out, with its free
    /// pool untouched — the facade never releases an identifier, which is
    /// what keeps freshly minted ones unique.
    pub open spec fn wf(self) -> bool {
        &&& node_wf(self.root)
        &&& forall|i: int, j: int|
            0 <= i < self.files@.len() && 0 <= j < self.files@.len() && i != j ==> (
            #[trigger] self.files@[i])@.path != (#[trigger] self.files@[j])@.path
        &&& forall|i: int, j: int|
            0 <= i < self.files@.len() && 0 <= j < self.files@.len() && i != j ==> (
            #[trigger] self.files@[i])@.id != (#[trigger] self.files@[j])@.id
        &&& forall|i: int|
            0 <= i < self.files@.len() ==> 1 < (#[trigger] self.files@[i])@.id
                < self.id_mgr.counter()
        &&& self.id_mgr.free().len() == 0
    }

    /// Read the superblock through the decoder and build the root level
    /// from the root directory's block. A decoder failure on that block
    /// surfaces as `DecodeErr`. The identifier manager must come with an
    /// empty free pool (a fresh one does): the facade relies on minted
    /// identifiers alone for handle uniqueness.
    pub fn new(cache_buffer: C, format: F, id_mgr: IdManager, device_id: usize) -> (r: Result<
        Self,
        IoError,
    >)
        requires
            id_mgr.free().len() == 0,
        ensures
            match r {
                Ok(fs) => fs.wf() && fs.files@.len() == 0 && fs.device_id == device_id
                    && fs.root.node is None && fs.root.path@ == Seq::<char>::empty()
                    && fs.root.name@ == "root"@ && fs.id_mgr == id_mgr,
                Err(e) => e is DecodeErr,
            },
    {
        let info = format.parse_super_block();
        match format.parse_node(info.root_directory_block_idx) {
            Err(_) => Err(IoError::DecodeErr),
            Ok(leaves) => {
                let root = Node::new(
                    String::from_str("root"),
                    String::new(),
                    info.root_directory_block_idx,
                    leaves,
                );
                Ok(
                    FileSystem {
                        id_mgr,
                        files: Vec::new(),
                        cache_buffer,
                        format,
                        total_size: info.total_size,
                        block_size: info.block_size,
                        block_start: info.block_start_addr,
                        device_id,
                        root,
                    },
                )
            },
        }
    }

    /// Normalize a raw path into the key form used by the handle table
    /// and the tree: surrounding blanks and separators stripped, and a
    /// single trailing separator re-appended for directory-context use.
    pub fn format_path(&self, path: &String, dir: bool) -> (r: String)
        ensures
            r@ == format_path_spec(path@, dir),
    {
        format_path_str(path.as_str(), dir)
    }

    /// Index of the first handle keyed by `path`.
    fn find_by_path(&self, path: &String) -> (r: Option<usize>)
        ensures
            match r {
                Some(i) => i < self.files@.len() && path_idx(self.files@, path@) == i as int
                    && self.files@[i as int]@.path == path@,
                None => path_idx(self.files@, path@) == -1 && forall|j: int|
                    0 <= j < self.files@.len() ==> (#[trigger] self.files@[j])@.path != path@,
            },
    {
        let mut i: usize = 0;
        while i < self.files.len()
            invariant
                i <= self.files@.len(),
                forall|j: int| 0 <= j < i ==> (#[trigger] self.files@[j])@.path != path@,
            decreases self.files@.len() - i,
        {
            if self.files[i].path == *path {
                proof {
                    lemma_path_idx_at(self.files@, path@, i as int);
                }
                return Some(i);
            }
            i = i + 1;
        }
        proof {
            lemma_path_idx_none(self.files@, path@);
        }
        None
    }

    /// Index of the first handle carrying `id`.
    fn find_by_id(&self, id: usize) -> (r: Option<usize>)
        ensures
            match r {
                Some(i) => i < self.files@.len() && id_idx(self.files@, id as int) == i as int
                    && self.files@[i as int]@.id == id,
                None => id_idx(self.files@, id as int) == -1,
            },
    {
        let mut i: usize = 0;
        while i < self.files.len()
            invariant
                i <= self.files@.len(),
                forall|j: int| 0 <= j < i ==> (#[trigger] self.files@[j])@.id != id,
            decreases self.files@.len() - i,
        {
            if self.files[i].id == id {
                proof {
                    lemma_id_idx_at(self.files@, id as int, i as int);
                }
                return Some(i);
            }
            i = i + 1;
        }
        proof {
            lemma_id_idx_none(self.files@, id as int);
        }
        None
    }

    /// Project a resolved directory level into a `Directory` snapshot:
    /// file entries first, then subdirectory entries, each tagged by kind.
    fn generate_directory(&self, node: Node) -> (d: Directory)
        ensures
            d.name@ == node.name@,
            d.path@ == node.path@,
            d.block_idx == node.block_idx,
            d.device_id == self.device_id,
            d.item@.len() == node.file@.len() + node.directory@.len(),
            forall|i: int|
                0 <= i < node.file@.len() ==> (#[trigger] d.item@[i]).name@ == node.file@[i]@.name
                    && d.item@[i].itype is File,
            forall|i: int|
                0 <= i < node.directory@.len() ==> (#[trigger] d.item@[node.file@.len() + i]).name@
                    == node.directory@[i]@.name && d.item@[node.file@.len() + i].itype is Directory,
    {
        let mut item: Vec<DirectoryItem> = Vec::new();
        let mut i: usize = 0;
        while i < node.file.len()
            invariant
                i <= node.file@.len(),
                item@.len() == i,
                forall|k: int|
                    0 <= k < i ==> (#[trigger] item@[k]).name@ == node.file@[k]@.name
                        && item@[k].itype is File,
            decreases node.file@.len() - i,
        {
            item.push(DirectoryItem { name: node.file[i].name.clone(), itype: DirItemType::File });
            i = i + 1;
        }
        let mut k: usize = 0;
        while k < node.directory.len()
            invariant
                k <= node.directory@.len(),
                item@.len() == node.file@.len() + k,
                forall|q: int|
                    0 <= q < node.file@.len() ==> (#[trigger] item@[q]).name@ == node.file@[q]@.name
                        && item@[q].itype is File,
                forall|q: int|
                    0 <= q < k ==> {
                        let it = #[trigger] item@[node.file@.len() + q];
                        it.name@ == node.directory@[q]@.name && it.itype is Directory
                    },
            decreases node.directory@.len() - k,
        {
            item.push(
                DirectoryItem { name: node.directory[k].name.clone(), itype: DirItemType::Directory },
            );
            k = k + 1;
        }
        Directory {
            name: node.name.clone(),
            block_idx: node.block_idx,
            device_id: self.device_id,
            path: node.path.clone(),
            item,
        }
    }

    /// Total device size as decoded from the superblock.
    pub fn total_size(&self) -> (r: usize)
        ensures
            r == self.total_size,
    {
        self.total_size
    }

    /// Device block size as decoded from the superblock.
    pub fn block_size(&self) -> (r: usize)
        ensures
            r == self.block_size,
    {
        self.block_size
    }

    /// Whether the handle table holds a handle with this identifier.
    pub fn contain(&self, id: usize) -> (r: bool)
        ensures
            r == (id_idx(self.files@, id as int) != -1),
    {
        self.find_by_id(id).is_some()
    }

    /// Ask the decoder which device it is bound to.
    pub fn check(&self) -> usize {
        self.format.get_device()
    }

    /// Materialize a handle for `leaf` under the normalized key `path`,
    /// or reuse the handle already keyed by it. A fresh handle starts
    /// `Close`d with an identifier from the manager; a non-file leaf is
    /// rejected before anything is inserted.
    fn generate_file(&mut self, leaf: Leaf, path: String) -> (r: Result<usize, IoError>)
        requires
            old(self).wf(),
            old(self).id_mgr.counter() < usize::MAX,
        ensures
            final(self).wf(),
            final(self).root == old(self).root,
            final(self).total_size == old(self).total_size,
            final(self).block_size == old(self).block_size,
            final(self).block_start == old(self).block_start,
            final(self).device_id == old(self).device_id,
            final(self).id_mgr.counter() <= old(self).id_mgr.counter() + 3,
            final(self).id_mgr.free() == old(self).id_mgr.free(),
            r is Ok <==> leaf@.ltype is File,
            match r {
                Ok(i) => i < final(self).files@.len() && ({
                    let i0 = path_idx(old(self).files@, path@);
                    if i0 != -1 {
                        final(self).files == old(self).files && i as int == i0 && final(self).id_mgr == old(self).id_mgr
                    } else {
                        i as int == old(self).files@.len() && final(self).files@.len() == old(self).files@.len() + 1 && (forall|k: int|
                            0 <= k < old(self).files@.len() ==> final(self).files@[k] == old(self).files@[k]) && ({
                            let f = final(self).files@[i as int];
                            f@.path == path@ && f@.name == leaf@.name && f@.start_idx
                                == leaf@.block_idx && f@.size == leaf@.size && f@.device_id == old(self).device_id as int && f@.state.flag is Close && f@.state.owner.len()
                                == 0 && f@.id == mint_of(old(self).id_mgr.counter())
                                && (forall|k: int|
                                    0 <= k < old(self).files@.len()
                                        ==> f@.id != (#[trigger] old(self).files@[k])@.id)
                        })
                    }
                }),
                Err(e) => e is NotFile && *final(self) == *old(self),
            },
    {
        if !leaf.is_file() {
            return Err(IoError::NotFile);
        }
        match self.find_by_path(&path) {
            Some(i) => Ok(i),
            None => {
                let id = self.id_mgr.get();
                proof {
                    assert(id == mint_of(old(self).id_mgr.counter()));
                    assert(self.id_mgr.counter() <= old(self).id_mgr.counter() + 3);
                }
                let file = File {
                    id,
                    device_id: self.device_id,
                    start_idx: leaf.block_idx,
                    name: leaf.name,
                    state: FileState::new(),
                    path,
                    size: leaf.size,
                };
                self.files.push(file);
                proof {
                    let fs = self.files@;
                    let n = fs.len() - 1;
                    assert forall|a: int, b: int|
                        0 <= a < fs.len() && 0 <= b < fs.len() && a != b implies (
                    #[trigger] fs[a])@.path != (#[trigger] fs[b])@.path by {
                        assert(fs[n]@.path != fs[if a != n {
                            a
                        } else {
                            b
                        }]@.path);
                    }
                    assert forall|a: int, b: int|
                        0 <= a < fs.len() && 0 <= b < fs.len() && a != b implies (
                    #[trigger] fs[a])@.id != (#[trigger] fs[b])@.id by {
                        assert(fs[n]@.id != fs[if a != n {
                            a
                        } else {
                            b
                        }]@.id);
                    }
                }
                Ok(self.files.len() - 1)
            },
        }
    }

    /// Open the file at `path` with `flag`: reuse the handle keyed by the
    /// normalized path, or resolve a file-kind leaf through the tree and
    /// materialize one, then run the open-state machine on it. A snapshot
    /// of the handle is returned; a failed open inserts nothing, and the
    /// cached tree changes by lazy expansion along the path at most. The
    /// identifier counter must stand below the machine limit.
    pub fn open(&mut self, path: String, flag: FileFlag) -> (r: Result<File, IoError>)
        requires
            old(self).wf(),
            old(self).id_mgr.counter() < usize::MAX,
        ensures
            final(self).wf(),
            final(self).total_size == old(self).total_size,
            final(self).block_size == old(self).block_size,
            final(self).block_start == old(self).block_start,
            final(self).device_id == old(self).device_id,
            final(self).root.name == old(self).root.name,
            final(self).root.path == old(self).root.path,
            final(self).root.block_idx == old(self).root.block_idx,
            final(self).root.directory == old(self).root.directory,
            final(self).root.file == old(self).root.file,
            final(self).id_mgr.counter() <= old(self).id_mgr.counter() + 3,
            final(self).id_mgr.free() == old(self).id_mgr.free(),
            leaf_ready(old(self).root, format_path_spec(path@, false)) ==> node_like(
                old(self).root,
                final(self).root,
            ),
            ({
                let p = format_path_spec(path@, false);
                let i0 = path_idx(old(self).files@, p);
                if i0 != -1 {
                    final(self).root == old(self).root && final(self).id_mgr == old(self).id_mgr
                        && final(self).files@.len() == old(self).files@.len() && (forall|k: int|
                        0 <= k < old(self).files@.len() && k != i0 ==> final(self).files@[k] == old(self).files@[k]) && match open_outcome(old(self).files@[i0]@.state.flag, flag) {
                        Ok(f2) => (r matches Ok(fr) && final(self).files@[i0]@ == (FileV {
                            state: FileStateV {
                                flag: f2,
                                owner: old(self).files@[i0]@.state.owner,
                            },
                            ..old(self).files@[i0]@
                        }) && fr@ == final(self).files@[i0]@),
                        Err(e) => r == Err::<File, IoError>(io_of_file_err(e))
                            && final(self).files@ == old(self).files@,
                    }
                } else {
                    match r {
                        Ok(fr) => (lookup_leaf(final(self).root, p) matches LeafLookup::Found(l)
                            && l.ltype is File && !(flag is Close) && final(self).files@.len()
                            == old(self).files@.len() + 1 && (forall|k: int|
                            0 <= k < old(self).files@.len() ==> final(self).files@[k] == old(self).files@[k]) && fr@ == final(self).files@[old(self).files@.len() as int]@
                            && fr@.path == p && fr@.name == l.name && fr@.start_idx == l.block_idx
                            && fr@.size == l.size && fr@.state.flag == flag
                            && fr@.state.owner.len() == 0),
                        Err(IoError::NoEntry) => (lookup_leaf(final(self).root, p)
                            matches LeafLookup::Missing(_)) && final(self).files == old(self).files,
                        Err(IoError::NotFile) => (lookup_leaf(final(self).root, p)
                            matches LeafLookup::Found(l2) && !(l2.ltype is File)) && final(self).files == old(self).files,
                        Err(IoError::FlagErr(f)) => f == flag && flag is Close && final(self).files
                            == old(self).files,
                        Err(IoError::DecodeErr) => (lookup_leaf(final(self).root, p)
                            is Blocked) && final(self).files == old(self).files,
                        _ => false,
                    }
                }
            }),
    {
        if flag == FileFlag::Close {
            proof {
                lemma_node_like_refl(self.root);
            }
            return Err(IoError::FlagErr(flag));
        }
        let p = self.format_path(&path, false);
        match self.find_by_path(&p) {
            Some(i) => {
                let fmut = &mut self.files[i];
                let res = fmut.open(flag);
                proof {
                    lemma_node_like_refl(self.root);
                    assert forall|a: int| 0 <= a < self.files@.len() implies (
                    #[trigger] self.files@[a])@.path == old(self).files@[a]@.path by {}
                    assert forall|a: int| 0 <= a < self.files@.len() implies (
                    #[trigger] self.files@[a])@.id == old(self).files@[a]@.id by {}
                    if res is Err {
                        assert(self.files@ =~= old(self).files@);
                    }
                }
                match res {
                    Ok(()) => Ok(self.files[i].clone()),
                    Err(e) => Err(Self::io_err(e)),
                }
            },
            None => {
                let leaf = match self.root.search_leaf(p.clone(), &self.format) {
                    Ok(l) => l,
                    Err(NodeError::NoDirectory(_)) => {
                        return Err(IoError::NoEntry);
                    },
                    Err(NodeError::ExpendErr) => {
                        return Err(IoError::DecodeErr);
                    },
                    Err(NodeError::NoFile(_)) => {
                        proof {
                            assert(false);
                        }
                        return Err(IoError::NoEntry);
                    },
                };
                let idx = match self.generate_file(leaf, p) {
                    Ok(i) => i,
                    Err(e) => {
                        return Err(e);
                    },
                };
                let fmut = &mut self.files[idx];
                let res = fmut.open(flag);
                match res {
                    Ok(()) => Ok(self.files[idx].clone()),
                    Err(_) => {
                        proof {
                            assert(false);
                        }
                        Err(IoError::DecodeErr)
                    },
                }
            },
        }
    }

    /// Inspect the file at `path` without acquiring access: resolve or
    /// materialize its handle exactly as `open` would, but run no state
    /// transition, and hand back a snapshot.
    pub fn get_file(&mut self, path: String) -> (r: Result<File, IoError>)
        requires
            old(self).wf(),
            old(self).id_mgr.counter() < usize::MAX,
        ensures
            final(self).wf(),
            final(self).total_size == old(self).total_size,
            final(self).block_size == old(self).block_size,
            final(self).block_start == old(self).block_start,
            final(self).device_id == old(self).device_id,
            final(self).root.name == old(self).root.name,
            final(self).root.path == old(self).root.path,
            final(self).root.block_idx == old(self).root.block_idx,
            final(self).root.directory == old(self).root.directory,
            final(self).root.file == old(self).root.file,
            final(self).id_mgr.counter() <= old(self).id_mgr.counter() + 3,
            final(self).id_mgr.free() == old(self).id_mgr.free(),
            leaf_ready(old(self).root, format_path_spec(path@, false)) ==> node_like(
                old(self).root,
                final(self).root,
            ),
            ({
                let p = format_path_spec(path@, false);
                let i0 = path_idx(old(self).files@, p);
                if i0 != -1 {
                    *final(self) == *old(self) && (r matches Ok(fr) && fr@ == old(self).files@[i0]@)
                } else {
                    match r {
                        Ok(fr) => (lookup_leaf(final(self).root, p) matches LeafLookup::Found(l)
                            && l.ltype is File && final(self).files@.len() == old(self).files@.len() + 1 && (forall|k: int|
                            0 <= k < old(self).files@.len() ==> final(self).files@[k] == old(self).files@[k]) && fr@ == final(self).files@[old(self).files@.len() as int]@
                            && fr@.path == p && fr@.name == l.name && fr@.start_idx == l.block_idx
                            && fr@.size == l.size && fr@.state.flag is Close),
                        Err(IoError::NoEntry) => (lookup_leaf(final(self).root, p)
                            matches LeafLookup::Missing(_)) && final(self).files == old(self).files,
                        Err(IoError::NotFile) => (lookup_leaf(final(self).root, p)
                            matches LeafLookup::Found(l2) && !(l2.ltype is File)) && final(self).files == old(self).files,
                        Err(IoError::DecodeErr) => (lookup_leaf(final(self).root, p)
                            is Blocked) && final(self).files == old(self).files,
                        _ => false,
                    }
                }
            }),
    {
        let p = self.format_path(&path, false);
        match self.find_by_path(&p) {
            Some(i) => {
                proof {
                    lemma_node_like_refl(self.root);
                }
                Ok(self.files[i].clone())
            },
            None => {
                let leaf = match self.root.search_leaf(p.clone(), &self.format) {
                    Ok(l) => l,
                    Err(NodeError::NoDirectory(_)) => {
                        return Err(IoError::NoEntry);
                    },
                    Err(NodeError::ExpendErr) => {
                        return Err(IoError::DecodeErr);
                    },
                    Err(NodeError::NoFile(_)) => {
                        proof {
                            assert(false);
                        }
                        return Err(IoError::NoEntry);
                    },
                };
                let idx = match self.generate_file(leaf, p) {
                    Ok(i) => i,
                    Err(e) => {
                        return Err(e);
                    },
                };
                Ok(self.files[idx].clone())
            },
        }
    }

    /// Resolve the directory at `path` (normalized in directory form,
    /// forcing expansion at that level) and hand back its snapshot: file
    /// entries first, then subdirectories, each tagged by kind. A decoder
    /// failure can only arise where the cached tree was not already
    /// expanded along the path; on an already-cached path the tree is
    /// left observationally unchanged and the snapshot is owed.
    pub fn enter(&mut self, path: String) -> (r: Result<Directory, IoError>)
        requires
            old(self).wf(),
        ensures
            final(self).wf(),
            final(self).files == old(self).files,
            final(self).id_mgr == old(self).id_mgr,
            final(self).total_size == old(self).total_size,
            final(self).block_size == old(self).block_size,
            final(self).block_start == old(self).block_start,
            final(self).device_id == old(self).device_id,
            final(self).root.name == old(self).root.name,
            final(self).root.path == old(self).root.path,
            final(self).root.block_idx == old(self).root.block_idx,
            final(self).root.directory == old(self).root.directory,
            final(self).root.file == old(self).root.file,
            node_ready(old(self).root, format_path_spec(path@, true)) ==> node_like(
                old(self).root,
                final(self).root,
            ),
            ({
                let p = format_path_spec(path@, true);
                match r {
                    Ok(d) => (lookup_node(final(self).root, p) matches NodeLookup::Found(t)
                        && d.name@ == t.name@ && d.path@ == t.path@ && d.block_idx == t.block_idx
                        && d.device_id == old(self).device_id && d.item@.len() == t.file@.len()
                        + t.directory@.len() && (forall|i: int|
                        0 <= i < t.file@.len() ==> (#[trigger] d.item@[i]).name@
                            == t.file@[i]@.name && d.item@[i].itype is File) && (forall|i: int|
                        0 <= i < t.directory@.len() ==> {
                            let it = #[trigger] d.item@[t.file@.len() + i];
                            it.name@ == t.directory@[i]@.name && it.itype is Directory
                        })),
                    Err(IoError::NoEntry) => lookup_node(final(self).root, p)
                        matches NodeLookup::Missing(_),
                    Err(IoError::DecodeErr) => !node_ready(old(self).root, p),
                    _ => false,
                }
            }),
    {
        let p = self.format_path(&path, true);
        match self.root.search_node(p, &self.format) {
            Ok(nd) => Ok(self.generate_directory(nd)),
            Err(NodeError::NoDirectory(_)) => Err(IoError::NoEntry),
            Err(NodeError::ExpendErr) => Err(IoError::DecodeErr),
            Err(NodeError::NoFile(_)) => {
                proof {
                    assert(false);
                }
                Err(IoError::NoEntry)
            },
        }
    }

    /// Read from the open file with identifier `id` into `data`, through
    /// its block chain. Fails with `FileClosed` exactly when the handle
    /// table holds no such identifier, and with `ReadFromWrite` exactly
    /// when the handle is not open readable; bytes past the transferred
    /// count are never touched.
    pub fn read(&mut self, id: usize, data: &mut Vec<u8>) -> (r: IoResult)
        requires
            old(self).wf(),
        ensures
            final(self).wf(),
            final(self).files == old(self).files,
            final(self).id_mgr == old(self).id_mgr,
            final(self).total_size == old(self).total_size,
            final(self).block_size == old(self).block_size,
            final(self).block_start == old(self).block_start,
            final(self).device_id == old(self).device_id,
            final(self).root.name == old(self).root.name,
            final(self).root.path == old(self).root.path,
            final(self).root.block_idx == old(self).root.block_idx,
            final(self).root.directory == old(self).root.directory,
            final(self).root.file == old(self).root.file,
            final(data)@.len() == old(data)@.len(),
            (id_idx(old(self).files@, id as int) == -1) <==> r == Err::<usize, IoError>(
                IoError::FileClosed,
            ),
            r == Err::<usize, IoError>(IoError::FileClosed) ==> final(data)@ == old(data)@ && *final(self) == *old(self),
            ({
                let i0 = id_idx(old(self).files@, id as int);
                i0 != -1 ==> {
                    let f = old(self).files@[i0];
                    &&& (!(f@.state.flag is Read || f@.state.flag is ReadWrite) <==> r == Err::<
                        usize,
                        IoError,
                    >(IoError::ReadFromWrite))
                    &&& (r == Err::<usize, IoError>(IoError::ReadFromWrite) ==> final(data)@ == old(
                        data,
                    )@ && *final(self) == *old(self))
                    &&& (leaf_ready(old(self).root, f@.path) ==> node_like(
                        old(self).root,
                        final(self).root,
                    ))
                    &&& match r {
                        Ok(n) => n <= old(data)@.len() && (exists|cl: nat|
                            n == xfer_len(cl, old(data)@.len(), old(self).block_size as nat)) && (
                        forall|i: int|
                            n <= i < old(data)@.len() ==> final(data)@[i] == old(data)@[i]) && (
                        lookup_leaf(final(self).root, f@.path) matches LeafLookup::Found(_)),
                        Err(IoError::NoEntry) => (lookup_leaf(final(self).root, f@.path)
                            matches LeafLookup::Missing(_)) && final(data)@ == old(data)@,
                        Err(IoError::DecodeErr) => final(data)@ == old(data)@,
                        Err(IoError::AddrOverflow) => true,
                        Err(IoError::ReadFromWrite) => true,
                        _ => false,
                    }
                }
            }),
    {
        let fi = self.find_by_id(id);
        match fi {
            None => Err(IoError::FileClosed),
            Some(i) => {
                if !self.files[i].readable() {
                    proof {
                        lemma_node_like_refl(self.root);
                    }
                    return Err(IoError::ReadFromWrite);
                }
                let fpath = self.files[i].path.clone();
                let leaf = match self.root.search_leaf(fpath, &self.format) {
                    Ok(l) => l,
                    Err(NodeError::NoDirectory(_)) => {
                        return Err(IoError::NoEntry);
                    },
                    Err(NodeError::ExpendErr) => {
                        return Err(IoError::DecodeErr);
                    },
                    Err(NodeError::NoFile(_)) => {
                        proof {
                            assert(false);
                        }
                        return Err(IoError::NoEntry);
                    },
                };
                let chain = match self.format.get_block_chain(leaf.block_idx) {
                    Ok(c) => c,
                    Err(_) => {
                        return Err(IoError::DecodeErr);
                    },
                };
                let r = read_block_chain(
                    &mut self.cache_buffer,
                    self.device_id,
                    self.block_start,
                    self.block_size,
                    &chain,
                    data,
                );
                proof {
                    if r is Ok {
                        let n = r->Ok_0;
                        assert(n == xfer_len(
                            chain@.len(),
                            old(data)@.len(),
                            self.block_size as nat,
                        ));
                    }
                }
                r
            },
        }
    }

    /// Write `data` to the open file with identifier `id`, through its
    /// block chain, mirroring `read`'s window rule. Fails with
    /// `FileClosed` exactly when the handle table holds no such
    /// identifier, and with `WriteToReadOnly` exactly when the handle is
    /// not open writable.
    pub fn write(&mut self, id: usize, data: &[u8]) -> (r: IoResult)
        requires
            old(self).wf(),
        ensures
            final(self).wf(),
            final(self).files == old(self).files,
            final(self).id_mgr == old(self).id_mgr,
            final(self).total_size == old(self).total_size,
            final(self).block_size == old(self).block_size,
            final(self).block_start == old(self).block_start,
            final(self).device_id == old(self).device_id,
            final(self).root.name == old(self).root.name,
            final(self).root.path == old(self).root.path,
            final(self).root.block_idx == old(self).root.block_idx,
            final(self).root.directory == old(self).root.directory,
            final(self).root.file == old(self).root.file,
            (id_idx(old(self).files@, id as int) == -1) <==> r == Err::<usize, IoError>(
                IoError::FileClosed,
            ),
            r == Err::<usize, IoError>(IoError::FileClosed) ==> *final(self) == *old(self),
            ({
                let i0 = id_idx(old(self).files@, id as int);
                i0 != -1 ==> {
                    let f = old(self).files@[i0];
                    &&& (!(f@.state.flag is Write || f@.state.flag is ReadWrite) <==> r == Err::<
                        usize,
                        IoError,
                    >(IoError::WriteToReadOnly))
                    &&& (r == Err::<usize, IoError>(IoError::WriteToReadOnly) ==> *final(self)
                        == *old(self))
                    &&& (leaf_ready(old(self).root, f@.path) ==> node_like(
                        old(self).root,
                        final(self).root,
                    ))
                    &&& match r {
                        Ok(n) => n <= data@.len() && (exists|cl: nat|
                            n == xfer_len(cl, data@.len(), old(self).block_size as nat)) && (
                        lookup_leaf(final(self).root, f@.path) matches LeafLookup::Found(_)),
                        Err(IoError::NoEntry) => lookup_leaf(final(self).root, f@.path)
                            matches LeafLookup::Missing(_),
                        Err(IoError::DecodeErr) => true,
                        Err(IoError::AddrOverflow) => true,
                        Err(IoError::WriteToReadOnly) => true,
                        _ => false,
                    }
                }
            }),
    {
        let fi = self.find_by_id(id);
        match fi {
            None => Err(IoError::FileClosed),
            Some(i) => {
                if !self.files[i].writable() {
                    proof {
                        lemma_node_like_refl(self.root);
                    }
                    return Err(IoError::WriteToReadOnly);
                }
                let fpath = self.files[i].path.clone();
                let leaf = match self.root.search_leaf(fpath, &self.format) {
                    Ok(l) => l,
                    Err(NodeError::NoDirectory(_)) => {
                        return Err(IoError::NoEntry);
                    },
                    Err(NodeError::ExpendErr) => {
                        return Err(IoError::DecodeErr);
                    },
                    Err(NodeError::NoFile(_)) => {
                        proof {
                            assert(false);
                        }
                        return Err(IoError::NoEntry);
                    },
                };
                let chain = match self.format.get_block_chain(leaf.block_idx) {
                    Ok(c) => c,
                    Err(_) => {
                        return Err(IoError::DecodeErr);
                    },
                };
                let r = write_block_chain(
                    &mut self.cache_buffer,
                    self.device_id,
                    self.block_start,
                    self.block_size,
                    &chain,
                    data,
                );
                proof {
                    if r is Ok {
                        let n = r->Ok_0;
                        assert(n == xfer_len(chain@.len(), data@.len(), self.block_size as nat));
                    }
                }
                r
            },
        }
    }

    /// Reload the cached subtree at the snapshot's path from the decoder,
    /// after an external mutation invalidated it.
    pub fn refresh(&mut self, dir: &Directory) -> (r: Result<(), IoError>)
        requires
            old(self).wf(),
        ensures
            final(self).wf(),
            final(self).files == old(self).files,
            final(self).id_mgr == old(self).id_mgr,
            final(self).total_size == old(self).total_size,
            final(self).block_size == old(self).block_size,
            final(self).block_start == old(self).block_start,
            final(self).device_id == old(self).device_id,
            final(self).root.name == old(self).root.name,
            final(self).root.path == old(self).root.path,
            final(self).root.block_idx == old(self).root.block_idx,
            dir.path@.len() > 0 ==> final(self).root.directory == old(self).root.directory
                && final(self).root.file == old(self).root.file,
            dir.path@.len() > 0 && named_idx(old(self).root.directory@, seg_of(dir.path@)) == -1
                ==> r == Err::<(), IoError>(IoError::NoEntry),
            match r {
                Ok(()) => (lookup_node(final(self).root, dir.path@) matches NodeLookup::Found(t)
                    && t.node is None),
                Err(IoError::NoEntry) => lookup_node(final(self).root, dir.path@)
                    matches NodeLookup::Missing(_),
                Err(IoError::DecodeErr) => true,
                _ => false,
            },
    {
        match self.root.refresh(dir.path.clone(), &self.format) {
            Ok(()) => Ok(()),
            Err(NodeError::NoDirectory(_)) => Err(IoError::NoEntry),
            Err(NodeError::ExpendErr) => Err(IoError::DecodeErr),
            Err(NodeError::NoFile(_)) => {
                proof {
                    assert(false);
                }
                Err(IoError::NoEntry)
            },
        }
    }

    /// The `IoError` a state-machine failure surfaces as.
    fn io_err(e: FileError) -> (r: IoError)
        ensures
            r == io_of_file_err(e),
    {
        match e {
            FileError::WriteToReadOnly => IoError::WriteToReadOnly,
            FileError::ReadFromWrite => IoError::ReadFromWrite,
            FileError::FlagErr(f) => IoError::FlagErr(f),
        }
    }
}

impl<C: CacheBuffer, F: Format> SystemOp for FileSystem<C, F> {
    open spec fn inv(&self) -> bool {
        self.wf()
    }

    open spec fn can_allocate(&self) -> bool {
        self.id_mgr.counter() < usize::MAX
    }

    fn open(&mut self, path: String, flag: FileFlag) -> Result<File, IoError> {
        self.open(path, flag)
    }

    fn enter(&mut self, path: String) -> Result<Directory, IoError> {
        self.enter(path)
    }

    fn get_file(&mut self, path: String) -> Result<File, IoError> {
        self.get_file(path)
    }

    fn read(&mut self, id: usize, data: &mut Vec<u8>) -> IoResult {
        self.read(id, data)
    }

    fn write(&mut self, id: usize, data: &[u8]) -> IoResult {
        self.write(id, data)
    }

    fn total_size(&self) -> usize {
        self.total_size()
    }

    fn block_size(&self) -> usize {
        self.block_size()
    }

    fn contain(&self, id: usize) -> bool {
        self.contain(id)
    }

    fn refresh(&mut self, dir: &Directory) -> Result<(), IoError> {
        self.refresh(dir)
    }

    fn check(&self) -> usize {
        self.check()
    }
}

} // verus!
