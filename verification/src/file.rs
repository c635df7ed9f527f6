use vstd::prelude::*;

verus! {

/// Access flag of a file handle: closed, or open with the given capabilities.
#[derive(Debug, Clone, Copy, PartialEq, Eq, Structural)]
pub enum FileFlag {
    Close,
    Read,
    Write,
    ReadWrite,
}

/// Numeric encoding of a flag.
pub open spec fn flag_val(f: FileFlag) -> int {
    match f {
        FileFlag::Close => 0,
        FileFlag::Read => 1,
        FileFlag::Write => 2,
        FileFlag::ReadWrite => 3,
    }
}

/// The flag encoded by `n`, if any; `Close` is never produced from a number.
pub open spec fn flag_from(n: int) -> Option<FileFlag> {
    if n == 1 {
        Some(FileFlag::Read)
    } else if n == 2 {
        Some(FileFlag::Write)
    } else if n == 3 {
        Some(FileFlag::ReadWrite)
    } else {
        None
    }
}

impl FileFlag {
    pub fn val(self) -> (r: usize)
        ensures
            r == flag_val(self),
    {
        match self {
            FileFlag::Close => 0,
            FileFlag::Read => 1,
            FileFlag::Write => 2,
            FileFlag::ReadWrite => 3,
        }
    }

    pub fn from(n: usize) -> (r: Option<Self>)
        ensures
            r == flag_from(n as int),
    {
        match n {
            1 => Some(Self::Read),
            2 => Some(Self::Write),
            3 => Some(Self::ReadWrite),
            _ => None,
        }
    }
}

/// Failure of the open-state machine.
#[derive(Debug, Clone, Copy, PartialEq, Eq, Structural)]
pub enum FileError {
    WriteToReadOnly,
    ReadFromWrite,
    FlagErr(FileFlag),
}

/// Mathematical mirror of a `FileState`.
pub ghost struct FileStateV {
    pub flag: FileFlag,
    pub owner: Seq<usize>,
}

/// Access flag plus the list of owning task identifiers. The owner list is
/// caller-side bookkeeping only; the state machine does not enforce it.
pub struct FileState {
    pub flag: FileFlag,
    pub owner: Vec<usize>,
}

impl View for FileState {
    type V = FileStateV;

    open spec fn view(&self) -> FileStateV {
        FileStateV { flag: self.flag, owner: self.owner@ }
    }
}

impl FileState {
    pub fn new() -> (r: Self)
        ensures
            r@ == (FileStateV { flag: FileFlag::Close, owner: Seq::<usize>::empty() }),
    {
        Self { flag: FileFlag::Close, owner: Vec::new() }
    }

    pub fn is_close(&self) -> (r: bool)
        ensures
            r == (self.flag is Close),
    {
        self.flag == FileFlag::Close
    }

    pub fn set(&mut self, flag: FileFlag)
        ensures
            final(self)@ == (FileStateV { flag, owner: old(self)@.owner }),
    {
        self.flag = flag;
    }

    pub fn readable(&self) -> (r: bool)
        ensures
            r == (self.flag is Read || self.flag is ReadWrite),
    {
        self.flag == FileFlag::Read || self.flag == FileFlag::ReadWrite
    }

    pub fn read_only(&self) -> (r: bool)
        ensures
            r == (self.flag is Read),
    {
        self.flag == FileFlag::Read
    }

    pub fn writable(&self) -> (r: bool)
        ensures
            r == (self.flag is Write || self.flag is ReadWrite),
    {
        self.flag == FileFlag::Write || self.flag == FileFlag::ReadWrite
    }

    pub fn is_own(&self, task_id: usize) -> (r: bool)
        ensures
            r == self.owner@.contains(task_id),
    {
        let mut i: usize = 0;
        while i < self.owner.len()
            invariant
                i <= self.owner@.len(),
                forall|j: int| 0 <= j < i ==> self.owner@[j] != task_id,
            decreases self.owner@.len() - i,
        {
            if self.owner[i] == task_id {
                return true;
            }
            i = i + 1;
        }
        false
    }

    pub fn own(&mut self, task_id: usize)
        ensures
            final(self)@ == (FileStateV {
                flag: old(self)@.flag,
                owner: old(self)@.owner.push(task_id),
            }),
    {
        self.owner.push(task_id)
    }
}

impl Clone for FileState {
    fn clone(&self) -> (r: Self)
        ensures
            r@ == self@,
    {
        Self { flag: self.flag, owner: self.owner.clone() }
    }
}

/// Mathematical mirror of a `File`.
pub ghost struct FileV {
    pub id: int,
    pub device_id: int,
    pub start_idx: int,
    pub name: Seq<char>,
    pub path: Seq<char>,
    pub state: FileStateV,
    pub size: int,
}

/// One open-or-closed file handle: identifier, owning device, starting block,
/// display name, normalized path, size, and the open-state machine.
pub struct File {
    pub id: usize,
    pub device_id: usize,
    pub start_idx: usize,
    pub name: String,
    pub path: String,
    pub state: FileState,
    pub size: usize,
}

impl View for File {
    type V = FileV;

    open spec fn view(&self) -> FileV {
        FileV {
            id: self.id as int,
            device_id: self.device_id as int,
            start_idx: self.start_idx as int,
            name: self.name@,
            path: self.path@,
            state: self.state@,
            size: self.size as int,
        }
    }
}

impl Clone for File {
    fn clone(&self) -> (r: Self)
        ensures
            r@ == self@,
    {
        Self {
            id: self.id,
            device_id: self.device_id,
            start_idx: self.start_idx,
            name: self.name.clone(),
            path: self.path.clone(),
            state: self.state.clone(),
            size: self.size,
        }
    }
}

/// Outcome of requesting `req` on a handle whose current flag is `cur`.
///
/// From `Close`, any of `Read`/`Write`/`ReadWrite` is granted as requested.
/// On an already-open handle, `Read` joins without modifying the state
/// unless the handle is open `Write`-only; `Write` is never granted
/// retroactively; `Close` (from anywhere) and `ReadWrite` (on an open
/// handle) are invalid requests.
pub open spec fn open_outcome(cur: FileFlag, req: FileFlag) -> Result<FileFlag, FileError> {
    if req is Close {
        Err(FileError::FlagErr(req))
    } else if cur is Close {
        Ok(req)
    } else if req is Read {
        if cur is Write {
            Err(FileError::ReadFromWrite)
        } else {
            Ok(cur)
        }
    } else if req is Write {
        Err(FileError::WriteToReadOnly)
    } else {
        Err(FileError::FlagErr(req))
    }
}

impl File {
    /// Run the open-state machine for a request of `flag` on this handle.
    pub fn open(&mut self, flag: FileFlag) -> (r: Result<(), FileError>)
        ensures
            match open_outcome(old(self)@.state.flag, flag) {
                Ok(f) => r is Ok && final(self)@ == (FileV {
                    state: FileStateV { flag: f, owner: old(self)@.state.owner },
                    ..old(self)@
                }),
                Err(e) => r == Err::<(), FileError>(e) && *final(self) == *old(self),
            },
    {
        if flag == FileFlag::Close {
            return Err(FileError::FlagErr(flag));
        }
        if self.state.is_close() {
            self.state.set(flag);
            Ok(())
        } else {
            match flag {
                FileFlag::Read => {
                    if self.state.readable() {
                        Ok(())
                    } else {
                        Err(FileError::ReadFromWrite)
                    }
                },
                FileFlag::Write => Err(FileError::WriteToReadOnly),
                _ => Err(FileError::FlagErr(flag)),
            }
        }
    }

    pub fn readable(&self) -> (r: bool)
        ensures
            r == (self@.state.flag is Read || self@.state.flag is ReadWrite),
    {
        self.state.readable()
    }

    pub fn writable(&self) -> (r: bool)
        ensures
            r == (self@.state.flag is Write || self@.state.flag is ReadWrite),
    {
        self.state.writable()
    }

    pub fn read_only(&self) -> (r: bool)
        ensures
            r == (self@.state.flag is Read),
    {
        self.state.read_only()
    }

    /// Close the handle unconditionally; concurrent logical holders are not
    /// counted, and the owner list is kept as caller-side bookkeeping.
    pub fn close(&mut self)
        ensures
            final(self)@ == (FileV {
                state: FileStateV {
                    flag: FileFlag::Close,
                    owner: old(self)@.state.owner,
                },
                ..old(self)@
            }),
    {
        self.state.flag = FileFlag::Close;
    }

    pub fn is_own(&self, task_id: usize) -> (r: bool)
        ensures
            r == self@.state.owner.contains(task_id),
    {
        self.state.is_own(task_id)
    }

    pub fn own(&mut self, task_id: usize)
        ensures
            final(self)@ == (FileV {
                state: FileStateV {
                    flag: old(self)@.state.flag,
                    owner: old(self)@.state.owner.push(task_id),
                },
                ..old(self)@
            }),
    {
        self.state.own(task_id)
    }
}

} // verus!
