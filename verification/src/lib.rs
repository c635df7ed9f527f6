//! A filesystem abstraction layer.
//!
//! The tree-shaped management core is the `FileSystem` facade together with
//! the lazily expanded `Node` cache; `Directory`, `File` and `Leaf` are the
//! information carriers handed across the boundary. The on-disk format
//! decoder and the block-level cache are pluggable collaborators described
//! by the `Format` and `CacheBuffer` traits.

mod block_info;
mod directory;
mod file;
mod file_id;
mod leaf;
mod node;
mod path;
mod require;
mod system;

pub use block_info::DiskInfo;
pub use block_info::SystemType;
pub use directory::DirItemType;
pub use directory::Directory;
pub use directory::DirectoryItem;
pub use file::open_outcome;
pub use file::File;
pub use file::FileError;
pub use file::FileFlag;
pub use file::FileState;
pub use file::FileStateV;
pub use file::FileV;
pub use file_id::mint_of;
pub use file_id::IdManager;
pub use leaf::Leaf;
pub use leaf::LeafType;
pub use leaf::LeafV;
pub use node::dirs_of;
pub use node::files_of;
pub use node::leaf_ready;
pub use node::leaves_like;
pub use node::lemma_leaf_lookup_complete_ready;
pub use node::lemma_lookup_leaf_like;
pub use node::lemma_lookup_node_like;
pub use node::lemma_named_idx_like;
pub use node::lookup_leaf;
pub use node::lookup_node;
pub use node::named_idx;
pub use node::node_like;
pub use node::node_ready;
pub use node::node_wf;
pub use node::ItemType;
pub use node::LeafLookup;
pub use node::Node;
pub use node::NodeError;
pub use node::NodeLookup;
pub use require::CacheBuffer;
pub use require::Format;
pub use require::SystemOp;
pub use path::find_slash;
pub use path::format_path_spec;
pub use path::format_path_str;
pub use path::has_slash;
pub use path::rest_of;
pub use path::seg_of;
pub use system::addrs_ok;
pub use system::id_idx;
pub use system::io_of_file_err;
pub use system::path_idx;
pub use system::read_block_chain;
pub use system::write_block_chain;
pub use system::xfer_len;
pub use system::FileSystem;
pub use system::IoError;
pub use system::IoResult;
