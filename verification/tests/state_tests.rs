use tisu_fs::{File, FileError, FileFlag, FileState, IdManager};

fn mk_file() -> File {
    File {
        id: 5,
        device_id: 0,
        start_idx: 10,
        name: "a.txt".to_string(),
        path: "a.txt".to_string(),
        state: FileState::new(),
        size: 10,
    }
}

#[test]
fn flag_values() {
    assert_eq!(FileFlag::Close.val(), 0);
    assert_eq!(FileFlag::Read.val(), 1);
    assert_eq!(FileFlag::Write.val(), 2);
    assert_eq!(FileFlag::ReadWrite.val(), 3);
}

#[test]
fn flag_from_numbers() {
    assert_eq!(FileFlag::from(0), None);
    assert_eq!(FileFlag::from(1), Some(FileFlag::Read));
    assert_eq!(FileFlag::from(2), Some(FileFlag::Write));
    assert_eq!(FileFlag::from(3), Some(FileFlag::ReadWrite));
    assert_eq!(FileFlag::from(4), None);
}

#[test]
fn flag_round_trip() {
    for f in [FileFlag::Read, FileFlag::Write, FileFlag::ReadWrite] {
        assert_eq!(FileFlag::from(f.val()), Some(f));
    }
}

#[test]
fn fresh_state_is_closed() {
    let s = FileState::new();
    assert!(s.is_close());
    assert!(!s.readable());
    assert!(!s.writable());
    assert!(!s.read_only());
}

#[test]
fn state_predicates() {
    let mut s = FileState::new();
    s.set(FileFlag::Read);
    assert!(s.readable() && s.read_only() && !s.writable());
    s.set(FileFlag::Write);
    assert!(!s.readable() && !s.read_only() && s.writable());
    s.set(FileFlag::ReadWrite);
    assert!(s.readable() && !s.read_only() && s.writable());
}

#[test]
fn open_from_closed_read() {
    let mut f = mk_file();
    assert!(f.open(FileFlag::Read).is_ok());
    assert_eq!(f.state.flag, FileFlag::Read);
}

#[test]
fn open_from_closed_write() {
    let mut f = mk_file();
    assert!(f.open(FileFlag::Write).is_ok());
    assert_eq!(f.state.flag, FileFlag::Write);
}

#[test]
fn open_from_closed_read_write() {
    let mut f = mk_file();
    assert!(f.open(FileFlag::ReadWrite).is_ok());
    assert_eq!(f.state.flag, FileFlag::ReadWrite);
}

#[test]
fn open_close_flag_rejected() {
    let mut f = mk_file();
    assert_eq!(f.open(FileFlag::Close), Err(FileError::FlagErr(FileFlag::Close)));
    assert!(f.state.is_close());
}

#[test]
fn read_on_write_only_fails() {
    let mut f = mk_file();
    f.open(FileFlag::Write).unwrap();
    assert_eq!(f.open(FileFlag::Read), Err(FileError::ReadFromWrite));
    assert_eq!(f.state.flag, FileFlag::Write);
}

#[test]
fn write_on_open_always_fails() {
    let mut f = mk_file();
    f.open(FileFlag::Read).unwrap();
    assert_eq!(f.open(FileFlag::Write), Err(FileError::WriteToReadOnly));

    let mut g = mk_file();
    g.open(FileFlag::ReadWrite).unwrap();
    assert_eq!(g.open(FileFlag::Write), Err(FileError::WriteToReadOnly));

    let mut h = mk_file();
    h.open(FileFlag::Write).unwrap();
    assert_eq!(h.open(FileFlag::Write), Err(FileError::WriteToReadOnly));
}

#[test]
fn read_join_is_idempotent() {
    let mut f = mk_file();
    f.open(FileFlag::Read).unwrap();
    assert!(f.open(FileFlag::Read).is_ok());
    assert_eq!(f.state.flag, FileFlag::Read);

    let mut g = mk_file();
    g.open(FileFlag::ReadWrite).unwrap();
    assert!(g.open(FileFlag::Read).is_ok());
    assert_eq!(g.state.flag, FileFlag::ReadWrite);
}

#[test]
fn read_write_request_on_open_is_invalid_flag() {
    let mut f = mk_file();
    f.open(FileFlag::Read).unwrap();
    assert_eq!(f.open(FileFlag::ReadWrite), Err(FileError::FlagErr(FileFlag::ReadWrite)));
}

#[test]
fn close_resets_state() {
    let mut f = mk_file();
    f.open(FileFlag::ReadWrite).unwrap();
    f.close();
    assert!(f.state.is_close());
    assert!(f.open(FileFlag::Write).is_ok());
}

#[test]
fn ownership_is_append_only() {
    let mut f = mk_file();
    assert!(!f.is_own(3));
    f.own(3);
    assert!(f.is_own(3));
    assert!(!f.is_own(4));
    f.own(4);
    assert!(f.is_own(3) && f.is_own(4));
}

#[test]
fn id_manager_reserves_standard_streams() {
    let mut m = IdManager::new();
    let a = m.get();
    let b = m.get();
    assert_ne!(a, 0);
    assert_ne!(a, 1);
    assert_ne!(b, 0);
    assert_ne!(b, 1);
    assert_eq!(a, 2);
    assert_eq!(b, 3);
}

#[test]
fn id_manager_reuses_released_ids_first() {
    let mut m = IdManager::new();
    let a = m.get();
    let _b = m.get();
    m.release(a);
    assert_eq!(m.get(), a);
    assert_eq!(m.get(), 4);
}
