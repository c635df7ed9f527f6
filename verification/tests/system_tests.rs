use std::cell::Cell;

use tisu_fs::{
    CacheBuffer, DirItemType, DiskInfo, FileFlag, FileSystem, Format, IdManager, IoError, Leaf,
    LeafType, SystemOp, SystemType,
};

// Mock on-disk layout, block size 4, block 0 starting at device byte 16:
//   root (block 1): dir "b" (block 2), file "a.txt" (chain start 10, size 10),
//                   dir "docs" (block 3), file "c.bin" (start 12, size 4),
//                   file "big.bin" (start 13, size 4)
//   b    (block 2): empty
//   docs (block 3): file "a.txt" (start 10, size 10), dir "b" (block 2)
// Chains: 10 -> [4, 6]; 12 -> decoder failure; 13 -> one block past the
// addressable range.
struct MockFmt {
    calls: Cell<usize>,
    fail_root: bool,
    fail_docs: bool,
}

fn leaf(name: &str, ltype: LeafType, block_idx: usize, size: usize) -> Leaf {
    Leaf { name: name.to_string(), ltype, block_idx, size }
}

impl Format for MockFmt {
    fn parse_node(&self, block_idx: usize) -> Result<Vec<Leaf>, ()> {
        self.calls.set(self.calls.get() + 1);
        match block_idx {
            1 => {
                if self.fail_root {
                    Err(())
                } else {
                    Ok(vec![
                        leaf("b", LeafType::Directory, 2, 0),
                        leaf("a.txt", LeafType::File, 10, 10),
                        leaf("docs", LeafType::Directory, 3, 0),
                        leaf("c.bin", LeafType::File, 12, 4),
                        leaf("big.bin", LeafType::File, 13, 4),
                    ])
                }
            }
            2 => Ok(vec![]),
            3 => {
                if self.fail_docs {
                    Err(())
                } else {
                    Ok(vec![
                        leaf("a.txt", LeafType::File, 10, 10),
                        leaf("b", LeafType::Directory, 2, 0),
                    ])
                }
            }
            _ => Err(()),
        }
    }

    fn get_block_chain(&self, start_idx: usize) -> Result<Vec<usize>, ()> {
        match start_idx {
            10 => Ok(vec![4, 6]),
            13 => Ok(vec![usize::MAX / 2]),
            _ => Err(()),
        }
    }

    fn parse_super_block(&self) -> DiskInfo {
        DiskInfo {
            stype: SystemType::Unknown,
            total_size: 4096,
            block_size: 4,
            root_directory_block_idx: 1,
            block_start_addr: 16,
        }
    }

    fn get_device(&self) -> usize {
        7
    }
}

struct MockCache {
    mem: Vec<u8>,
    reads: usize,
    writes: usize,
}

impl CacheBuffer for MockCache {
    fn read(&mut self, _device_id: usize, data: &mut Vec<u8>, start: usize, end: usize, addr: usize) {
        self.reads += 1;
        for i in start..end {
            data[i] = self.mem[addr + (i - start)];
        }
    }

    fn write(&mut self, _device_id: usize, data: &[u8], start: usize, end: usize, addr: usize) {
        self.writes += 1;
        for i in start..end {
            self.mem[addr + (i - start)] = data[i];
        }
    }
}

fn new_fs() -> FileSystem<MockCache, MockFmt> {
    let fmt = MockFmt { calls: Cell::new(0), fail_root: false, fail_docs: false };
    let cache = MockCache { mem: vec![0u8; 64], reads: 0, writes: 0 };
    FileSystem::new(cache, fmt, IdManager::new(), 7).unwrap()
}

#[test]
fn construction_reads_superblock() {
    let fs = new_fs();
    assert_eq!(fs.total_size(), 4096);
    assert_eq!(fs.block_size(), 4);
    assert_eq!(fs.check(), 7);
    assert_eq!(fs.device_id, 7);
}

#[test]
fn construction_fails_on_bad_root() {
    let fmt = MockFmt { calls: Cell::new(0), fail_root: true, fail_docs: false };
    let cache = MockCache { mem: vec![0u8; 64], reads: 0, writes: 0 };
    let r = FileSystem::new(cache, fmt, IdManager::new(), 7);
    assert!(matches!(r, Err(IoError::DecodeErr)));
}

#[test]
fn enter_root_lists_files_then_directories() {
    let mut fs = new_fs();
    let d = fs.enter("/".to_string()).unwrap();
    let names: Vec<&str> = d.item.iter().map(|i| i.name.as_str()).collect();
    assert_eq!(names, ["a.txt", "c.bin", "big.bin", "b", "docs"]);
    assert!(d.item[0].is_file() && d.item[1].is_file() && d.item[2].is_file());
    assert!(d.item[3].is_dir() && d.item[4].is_dir());
}

#[test]
fn enter_subdirectory_snapshot() {
    let mut fs = new_fs();
    let d = fs.enter("docs".to_string()).unwrap();
    assert_eq!(d.name, "docs");
    assert_eq!(d.path, "docs/");
    assert_eq!(d.block_idx, 3);
    assert_eq!(d.item.len(), 2);
    assert_eq!(d.item[0].name, "a.txt");
    assert_eq!(d.item[0].itype, DirItemType::File);
    assert_eq!(d.item[1].name, "b");
    assert_eq!(d.item[1].itype, DirItemType::Directory);
}

#[test]
fn missing_paths_fail_without_panic() {
    let mut fs = new_fs();
    assert!(matches!(fs.enter("nope".to_string()), Err(IoError::NoEntry)));
    assert!(matches!(fs.enter("docs/zzz".to_string()), Err(IoError::NoEntry)));
    assert!(matches!(
        fs.open("ghost.txt".to_string(), FileFlag::Read),
        Err(IoError::NoEntry)
    ));
    assert!(matches!(
        fs.open("docs/b/ghost.txt".to_string(), FileFlag::Read),
        Err(IoError::NoEntry)
    ));
    assert!(matches!(fs.get_file("b/one/two".to_string()), Err(IoError::NoEntry)));
}

#[test]
fn open_directory_is_not_a_file() {
    let mut fs = new_fs();
    assert!(matches!(
        fs.open("docs".to_string(), FileFlag::Read),
        Err(IoError::NotFile)
    ));
}

#[test]
fn open_materializes_handle() {
    let mut fs = new_fs();
    let f = fs.open("a.txt".to_string(), FileFlag::Read).unwrap();
    assert_eq!(f.name, "a.txt");
    assert_eq!(f.path, "a.txt");
    assert_eq!(f.size, 10);
    assert_eq!(f.start_idx, 10);
    assert_eq!(f.state.flag, FileFlag::Read);
    assert_eq!(f.id, 2);
    assert!(fs.contain(f.id));
    assert!(!fs.contain(99));
}

#[test]
fn open_reuses_handle_for_same_path() {
    let mut fs = new_fs();
    let a = fs.open("a.txt".to_string(), FileFlag::Read).unwrap();
    let b = fs.open(" /a.txt ".to_string(), FileFlag::Read).unwrap();
    assert_eq!(a.id, b.id);
    assert_eq!(b.state.flag, FileFlag::Read);
}

#[test]
fn open_close_flag_is_invalid() {
    let mut fs = new_fs();
    assert!(matches!(
        fs.open("a.txt".to_string(), FileFlag::Close),
        Err(IoError::FlagErr(FileFlag::Close))
    ));
}

#[test]
fn second_writer_is_refused() {
    let mut fs = new_fs();
    fs.open("a.txt".to_string(), FileFlag::Read).unwrap();
    assert!(matches!(
        fs.open("a.txt".to_string(), FileFlag::Write),
        Err(IoError::WriteToReadOnly)
    ));
}

#[test]
fn reader_on_write_only_is_refused() {
    let mut fs = new_fs();
    fs.open("a.txt".to_string(), FileFlag::Write).unwrap();
    assert!(matches!(
        fs.open("a.txt".to_string(), FileFlag::Read),
        Err(IoError::ReadFromWrite)
    ));
}

#[test]
fn get_file_runs_no_transition() {
    let mut fs = new_fs();
    let f = fs.get_file("docs/a.txt".to_string()).unwrap();
    assert_eq!(f.name, "a.txt");
    assert_eq!(f.path, "docs/a.txt");
    assert_eq!(f.state.flag, FileFlag::Close);
    let g = fs.open("docs/a.txt".to_string(), FileFlag::ReadWrite).unwrap();
    assert_eq!(g.id, f.id);
    assert_eq!(g.state.flag, FileFlag::ReadWrite);
}

#[test]
fn unknown_id_fails_with_file_closed() {
    let mut fs = new_fs();
    let mut buf = vec![1u8, 2, 3, 4];
    assert!(matches!(fs.read(999, &mut buf), Err(IoError::FileClosed)));
    assert!(matches!(fs.write(999, &buf), Err(IoError::FileClosed)));
    assert_eq!(buf, [1, 2, 3, 4]);
}

#[test]
fn read_on_unreadable_handle_fails() {
    let mut fs = new_fs();
    let f = fs.get_file("a.txt".to_string()).unwrap();
    let mut buf = vec![0u8; 4];
    assert!(matches!(fs.read(f.id, &mut buf), Err(IoError::ReadFromWrite)));
    let g = fs.open("a.txt".to_string(), FileFlag::Write).unwrap();
    assert!(matches!(fs.read(g.id, &mut buf), Err(IoError::ReadFromWrite)));
}

#[test]
fn write_on_read_only_handle_fails() {
    let mut fs = new_fs();
    let f = fs.open("a.txt".to_string(), FileFlag::Read).unwrap();
    let buf = vec![0u8; 4];
    assert!(matches!(fs.write(f.id, &buf), Err(IoError::WriteToReadOnly)));
}

#[test]
fn round_trip_over_full_extent() {
    let mut fs = new_fs();
    let f = fs.open("a.txt".to_string(), FileFlag::ReadWrite).unwrap();
    let out: Vec<u8> = vec![10, 20, 30, 40, 50, 60, 70, 80];
    assert_eq!(fs.write(f.id, &out), Ok(8));
    let mut back = vec![0u8; 8];
    assert_eq!(fs.read(f.id, &mut back), Ok(8));
    assert_eq!(back, out);
}

#[test]
fn blocks_land_at_chain_addresses() {
    let mut fs = new_fs();
    let f = fs.open("a.txt".to_string(), FileFlag::ReadWrite).unwrap();
    let out: Vec<u8> = vec![1, 2, 3, 4, 5, 6, 7, 8];
    fs.write(f.id, &out).unwrap();
    // chain [4, 6], block size 4, block 0 at byte 16
    assert_eq!(&fs.cache_buffer.mem[32..36], &[1, 2, 3, 4]);
    assert_eq!(&fs.cache_buffer.mem[40..44], &[5, 6, 7, 8]);
}

#[test]
fn short_buffer_transfers_its_length_only() {
    let mut fs = new_fs();
    let f = fs.open("a.txt".to_string(), FileFlag::ReadWrite).unwrap();
    let out: Vec<u8> = vec![9, 9, 9, 9, 9, 9, 9, 9];
    fs.write(f.id, &out).unwrap();

    let reads_before = fs.cache_buffer.reads;
    let mut buf = vec![0u8; 5];
    assert_eq!(fs.read(f.id, &mut buf), Ok(5));
    assert_eq!(fs.cache_buffer.reads - reads_before, 2);

    let reads_before = fs.cache_buffer.reads;
    let mut small = vec![0u8; 3];
    assert_eq!(fs.read(f.id, &mut small), Ok(3));
    assert_eq!(fs.cache_buffer.reads - reads_before, 1);
}

#[test]
fn buffer_longer_than_chain_stops_at_chain_end() {
    let mut fs = new_fs();
    let f = fs.open("a.txt".to_string(), FileFlag::Read).unwrap();
    let mut buf = vec![0u8; 100];
    assert_eq!(fs.read(f.id, &mut buf), Ok(8));
}

#[test]
fn broken_chain_surfaces_decode_err() {
    let mut fs = new_fs();
    let f = fs.open("c.bin".to_string(), FileFlag::Read).unwrap();
    let mut buf = vec![0u8; 4];
    assert!(matches!(fs.read(f.id, &mut buf), Err(IoError::DecodeErr)));
}

#[test]
fn out_of_range_block_address_is_rejected() {
    let mut fs = new_fs();
    let f = fs.open("big.bin".to_string(), FileFlag::Read).unwrap();
    let mut buf = vec![0u8; 4];
    assert!(matches!(fs.read(f.id, &mut buf), Err(IoError::AddrOverflow)));
}

#[test]
fn expansion_asks_decoder_only_once() {
    let mut fs = new_fs();
    fs.enter("docs".to_string()).unwrap();
    let after_first = fs.format.calls.get();
    fs.enter("docs".to_string()).unwrap();
    assert_eq!(fs.format.calls.get(), after_first);
    fs.get_file("docs/a.txt".to_string()).unwrap();
    assert_eq!(fs.format.calls.get(), after_first);
    fs.enter("docs/b".to_string()).unwrap();
    let after_deep = fs.format.calls.get();
    fs.enter("docs/b".to_string()).unwrap();
    assert_eq!(fs.format.calls.get(), after_deep);
}

#[test]
fn failed_expansion_surfaces_decode_err() {
    let fmt = MockFmt { calls: Cell::new(0), fail_root: false, fail_docs: true };
    let cache = MockCache { mem: vec![0u8; 64], reads: 0, writes: 0 };
    let mut fs = FileSystem::new(cache, fmt, IdManager::new(), 7).unwrap();
    assert!(matches!(
        fs.enter("docs/b".to_string()),
        Err(IoError::DecodeErr)
    ));
}

#[test]
fn refresh_reloads_from_decoder() {
    let mut fs = new_fs();
    let d = fs.enter("docs".to_string()).unwrap();
    let before = fs.format.calls.get();
    fs.refresh(&d).unwrap();
    assert!(fs.format.calls.get() > before);
    let d2 = fs.enter("docs".to_string()).unwrap();
    assert_eq!(d2.item.len(), 2);
}

#[test]
fn failed_open_inserts_no_handle() {
    let mut fs = new_fs();
    assert!(matches!(
        fs.open("docs".to_string(), FileFlag::Read),
        Err(IoError::NotFile)
    ));
    assert_eq!(fs.files.len(), 0);
    fs.open("a.txt".to_string(), FileFlag::Read).unwrap();
    assert!(matches!(
        fs.open("a.txt".to_string(), FileFlag::Write),
        Err(IoError::WriteToReadOnly)
    ));
    assert_eq!(fs.files.len(), 1);
}

#[test]
fn trait_surface_dispatches() {
    let mut fs = new_fs();
    assert_eq!(SystemOp::total_size(&fs), 4096);
    assert_eq!(SystemOp::block_size(&fs), 4);
    assert_eq!(SystemOp::check(&fs), 7);
    let f = SystemOp::open(&mut fs, "a.txt".to_string(), FileFlag::ReadWrite).unwrap();
    let out: Vec<u8> = vec![5; 8];
    assert_eq!(SystemOp::write(&mut fs, f.id, &out), Ok(8));
    let mut back = vec![0u8; 8];
    assert_eq!(SystemOp::read(&mut fs, f.id, &mut back), Ok(8));
    assert_eq!(back, out);
    assert!(SystemOp::contain(&fs, f.id));
}

#[test]
fn format_path_method_normalizes() {
    let fs = new_fs();
    assert_eq!(fs.format_path(&"/docs/".to_string(), true), "docs/");
    assert_eq!(fs.format_path(&"  file.txt ".to_string(), false), "file.txt");
}
