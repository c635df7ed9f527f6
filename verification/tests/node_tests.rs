use std::cell::Cell;

use tisu_fs::{DiskInfo, Format, Leaf, LeafType, Node, NodeError, SystemType};

// One-level-per-block layout:
//   block 1: dir "sub" (block 2), file "top.txt" (start 10, size 3)
//   block 2: file "inner.txt" (start 11, size 5)
struct TreeFmt {
    calls: Cell<usize>,
}

fn leaf(name: &str, ltype: LeafType, block_idx: usize, size: usize) -> Leaf {
    Leaf { name: name.to_string(), ltype, block_idx, size }
}

impl Format for TreeFmt {
    fn parse_node(&self, block_idx: usize) -> Result<Vec<Leaf>, ()> {
        self.calls.set(self.calls.get() + 1);
        match block_idx {
            1 => Ok(vec![
                leaf("sub", LeafType::Directory, 2, 0),
                leaf("top.txt", LeafType::File, 10, 3),
            ]),
            2 => Ok(vec![leaf("inner.txt", LeafType::File, 11, 5)]),
            _ => Err(()),
        }
    }

    fn get_block_chain(&self, _start_idx: usize) -> Result<Vec<usize>, ()> {
        Err(())
    }

    fn parse_super_block(&self) -> DiskInfo {
        DiskInfo {
            stype: SystemType::Unknown,
            total_size: 0,
            block_size: 1,
            root_directory_block_idx: 1,
            block_start_addr: 0,
        }
    }

    fn get_device(&self) -> usize {
        0
    }
}

fn root_node(fmt: &TreeFmt) -> Node {
    let leaves = fmt.parse_node(1).unwrap();
    Node::new("root".to_string(), String::new(), 1, leaves)
}

#[test]
fn new_partitions_by_kind() {
    let fmt = TreeFmt { calls: Cell::new(0) };
    let n = root_node(&fmt);
    assert_eq!(n.directory.len(), 1);
    assert_eq!(n.directory[0].name, "sub");
    assert!(n.directory[0].is_directory());
    assert_eq!(n.file.len(), 1);
    assert_eq!(n.file[0].name, "top.txt");
    assert!(n.file[0].is_file());
    assert!(n.node.is_none());
}

#[test]
fn search_leaf_finds_local_and_nested() {
    let fmt = TreeFmt { calls: Cell::new(0) };
    let mut n = root_node(&fmt);
    let l = n.search_leaf("top.txt".to_string(), &fmt).unwrap();
    assert_eq!(l.name, "top.txt");
    assert_eq!(l.block_idx, 10);
    assert_eq!(l.size, 3);
    let d = n.search_leaf("sub".to_string(), &fmt).unwrap();
    assert!(d.is_directory());
    let i = n.search_leaf("sub/inner.txt".to_string(), &fmt).unwrap();
    assert_eq!(i.name, "inner.txt");
    assert_eq!(i.block_idx, 11);
}

#[test]
fn search_leaf_reports_missing_path() {
    let fmt = TreeFmt { calls: Cell::new(0) };
    let mut n = root_node(&fmt);
    assert!(matches!(
        n.search_leaf("absent".to_string(), &fmt),
        Err(NodeError::NoDirectory(p)) if p == "absent"
    ));
    assert!(matches!(
        n.search_leaf("sub/absent".to_string(), &fmt),
        Err(NodeError::NoDirectory(p)) if p == "absent"
    ));
    assert!(matches!(
        n.search_leaf("ghost/inner.txt".to_string(), &fmt),
        Err(NodeError::NoDirectory(p)) if p == "ghost/inner.txt"
    ));
}

#[test]
fn expend_runs_once() {
    let fmt = TreeFmt { calls: Cell::new(0) };
    let mut n = root_node(&fmt);
    n.search_leaf("sub/inner.txt".to_string(), &fmt).unwrap();
    let after_first = fmt.calls.get();
    n.search_leaf("sub/inner.txt".to_string(), &fmt).unwrap();
    assert_eq!(fmt.calls.get(), after_first);
    assert!(n.node.is_some());
}

#[test]
fn expend_builds_empty_cache_for_leafless_level() {
    let fmt = TreeFmt { calls: Cell::new(0) };
    let mut n = root_node(&fmt);
    // "sub" has no child directories: its cache must still become present
    // on first expansion, and stay present.
    let snap = n.search_node("sub/".to_string(), &fmt).unwrap();
    assert_eq!(snap.name, "sub");
    assert!(snap.node.is_none());
    let sub = &n.node.as_ref().unwrap()[0];
    assert!(sub.node.is_some());
    assert_eq!(sub.node.as_ref().unwrap().len(), 0);
}

#[test]
fn search_node_snapshot_is_detached() {
    let fmt = TreeFmt { calls: Cell::new(0) };
    let mut n = root_node(&fmt);
    let mut snap = n.search_node(String::new(), &fmt).unwrap();
    assert_eq!(snap.name, "root");
    assert!(snap.node.is_none());
    assert_eq!(snap.directory.len(), 1);
    assert_eq!(snap.file.len(), 1);
    // the snapshot re-expands on its own
    let l = snap.search_leaf("sub/inner.txt".to_string(), &fmt).unwrap();
    assert_eq!(l.name, "inner.txt");
}

#[test]
fn reset_reloads_without_duplicating() {
    let fmt = TreeFmt { calls: Cell::new(0) };
    let mut n = root_node(&fmt);
    n.search_leaf("sub/inner.txt".to_string(), &fmt).unwrap();
    n.reset(&fmt).unwrap();
    assert_eq!(n.directory.len(), 1);
    assert_eq!(n.file.len(), 1);
    assert!(n.node.is_none());
    n.reset(&fmt).unwrap();
    assert_eq!(n.directory.len(), 1);
    assert_eq!(n.file.len(), 1);
}

#[test]
fn refresh_discards_cached_expansion() {
    let fmt = TreeFmt { calls: Cell::new(0) };
    let mut n = root_node(&fmt);
    n.search_leaf("sub/inner.txt".to_string(), &fmt).unwrap();
    n.refresh("sub/".to_string(), &fmt).unwrap();
    let sub = &n.node.as_ref().unwrap()[0];
    assert!(sub.node.is_none());
    assert_eq!(sub.file.len(), 1);
}

#[test]
fn init_appends_decoded_entries() {
    let fmt = TreeFmt { calls: Cell::new(0) };
    let mut n = Node::new("root".to_string(), String::new(), 1, Vec::new());
    assert_eq!(n.directory.len() + n.file.len(), 0);
    n.init(&fmt).unwrap();
    assert_eq!(n.directory.len(), 1);
    assert_eq!(n.file.len(), 1);
}

#[test]
fn decoder_failure_surfaces_expend_err() {
    let fmt = TreeFmt { calls: Cell::new(0) };
    let mut bad = Node::new("root".to_string(), String::new(), 99, Vec::new());
    assert!(matches!(bad.init(&fmt), Err(NodeError::ExpendErr)));
    assert!(matches!(bad.reset(&fmt), Err(NodeError::ExpendErr)));
}
