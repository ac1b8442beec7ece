//! The 9P2000.L messages that the file server handles, and the identity
//! model (`Qid`) of the objects it serves.
use vstd::prelude::*;

verus! {

/// Qid type of a directory.
pub const P9_QTDIR: u8 = 0x80;
/// Qid type of a symbolic link.
pub const P9_QTSYMLINK: u8 = 0x02;
/// Qid type of a regular file.
pub const P9_QTFILE: u8 = 0x00;

/// Directory-entry type of a directory.
pub const DT_DIR: u8 = 4;
/// Directory-entry type of a regular file.
pub const DT_REG: u8 = 8;
/// Directory-entry type of a symbolic link.
pub const DT_LNK: u8 = 10;
/// Directory-entry type that is not known.
pub const DT_UNKNOWN: u8 = 0;

/// Open for reading only.
pub const P9_RDONLY: u32 = 0;
/// Open for writing only.
pub const P9_WRONLY: u32 = 1;
/// Open for reading and writing.
pub const P9_RDWR: u32 = 2;
/// Mask of the access mode.
pub const P9_ACCMODE: u32 = 3;
/// Create the file if it does not exist.
pub const P9_CREATE: u32 = 0o100;
/// With `P9_CREATE`: fail if the file exists.
pub const P9_EXCL: u32 = 0o200;
/// Truncate the file to length zero.
pub const P9_TRUNC: u32 = 0o1000;
/// Every write goes to the end of the file.
pub const P9_APPEND: u32 = 0o2000;

/// `setattr`: change the mode.
pub const P9_SETATTR_MODE: u32 = 0x1;
/// `setattr`: change the owner.
pub const P9_SETATTR_UID: u32 = 0x2;
/// `setattr`: change the group.
pub const P9_SETATTR_GID: u32 = 0x4;
/// `setattr`: change the size.
pub const P9_SETATTR_SIZE: u32 = 0x8;
/// `setattr`: change the access time.
pub const P9_SETATTR_ATIME: u32 = 0x10;
/// `setattr`: change the modification time.
pub const P9_SETATTR_MTIME: u32 = 0x20;
/// `setattr`: change the status-change time.
pub const P9_SETATTR_CTIME: u32 = 0x40;
/// `setattr`: the access time is the given value, not "now".
pub const P9_SETATTR_ATIME_SET: u32 = 0x80;
/// `setattr`: the modification time is the given value, not "now".
pub const P9_SETATTR_MTIME_SET: u32 = 0x100;

/// `getattr`: the basic field set.
pub const P9_GETATTR_BASIC: u64 = 0x7ff;

/// `unlinkat`: the child is a directory.
pub const AT_REMOVEDIR: u32 = 0x200;

/// Kind of a file-system object.
#[derive(Clone, Copy, PartialEq, Eq, Debug, Structural)]
pub enum FileKind {
    Directory,
    Regular,
    Symlink,
    Other,
}

/// File metadata, as the operating system reports it for one object.
#[derive(Clone, Copy, PartialEq, Eq, Debug, Structural)]
pub struct Stat {
    pub kind: FileKind,
    pub ino: u64,
    pub mode: u32,
    pub uid: u32,
    pub gid: u32,
    pub nlink: u64,
    pub rdev: u64,
    pub size: u64,
    pub blksize: u64,
    pub blocks: u64,
    pub atime_sec: i64,
    pub atime_nsec: i64,
    pub mtime_sec: i64,
    pub mtime_nsec: i64,
    pub ctime_sec: i64,
    pub ctime_nsec: i64,
}

/// Identity of a file-system object: its type, a version taken from its
/// modification time, and a path number taken from its inode number.
#[derive(Clone, Copy, PartialEq, Eq, Debug, Structural)]
pub struct Qid {
    pub ty: u8,
    pub version: u32,
    pub path: u64,
}

/// The qid type of an object kind.
pub open spec fn qid_type(k: FileKind) -> u8 {
    match k {
        FileKind::Directory => P9_QTDIR,
        FileKind::Symlink => P9_QTSYMLINK,
        _ => P9_QTFILE,
    }
}

/// The identity of the object with metadata `st`: a function of its
/// metadata alone, so every walk that reaches it gives the same qid.
pub open spec fn qid_of(st: Stat) -> Qid {
    Qid { ty: qid_type(st.kind), version: st.mtime_sec as u32, path: st.ino }
}

/// The directory-entry type of an object kind.
pub open spec fn dirent_type(k: FileKind) -> u8 {
    match k {
        FileKind::Directory => DT_DIR,
        FileKind::Regular => DT_REG,
        FileKind::Symlink => DT_LNK,
        FileKind::Other => DT_UNKNOWN,
    }
}

/// Computes the identity of the object with metadata `st`.
pub fn qid_from_stat(st: &Stat) -> (r: Qid)
    ensures
        r == qid_of(*st),
{
    let ty = match st.kind {
        FileKind::Directory => P9_QTDIR,
        FileKind::Symlink => P9_QTSYMLINK,
        _ => P9_QTFILE,
    };
    Qid { ty, version: st.mtime_sec as u32, path: st.ino }
}

/// Computes the directory-entry type of an object kind.
pub fn dirent_type_of(k: FileKind) -> (r: u8)
    ensures
        r == dirent_type(k),
{
    match k {
        FileKind::Directory => DT_DIR,
        FileKind::Regular => DT_REG,
        FileKind::Symlink => DT_LNK,
        FileKind::Other => DT_UNKNOWN,
    }
}

#[derive(Clone, Debug, PartialEq, Eq)]
pub struct Tversion {
    pub msize: u32,
    pub version: String,
}

#[derive(Clone, Debug, PartialEq, Eq)]
pub struct Rversion {
    pub msize: u32,
    pub version: String,
}

#[derive(Clone, Debug, PartialEq, Eq)]
pub struct Tattach {
    pub fid: u32,
    pub afid: u32,
    pub uname: String,
    pub aname: String,
    pub n_uname: u32,
}

#[derive(Clone, Copy, Debug, PartialEq, Eq)]
pub struct Rattach {
    pub qid: Qid,
}

#[derive(Clone, Debug, PartialEq, Eq)]
pub struct Twalk {
    pub fid: u32,
    pub newfid: u32,
    pub wnames: Vec<String>,
}

#[derive(Clone, Debug, PartialEq, Eq)]
pub struct Rwalk {
    pub wqids: Vec<Qid>,
}

#[derive(Clone, Copy, Debug, PartialEq, Eq)]
pub struct Tlopen {
    pub fid: u32,
    pub flags: u32,
}

#[derive(Clone, Copy, Debug, PartialEq, Eq)]
pub struct Rlopen {
    pub qid: Qid,
    pub iounit: u32,
}

#[derive(Clone, Debug, PartialEq, Eq)]
pub struct Tlcreate {
    pub fid: u32,
    pub name: String,
    pub flags: u32,
    pub mode: u32,
    pub gid: u32,
}

#[derive(Clone, Copy, Debug, PartialEq, Eq)]
pub struct Rlcreate {
    pub qid: Qid,
    pub iounit: u32,
}

#[derive(Clone, Copy, Debug, PartialEq, Eq)]
pub struct Tread {
    pub fid: u32,
    pub offset: u64,
    pub count: u32,
}

#[derive(Clone, Debug, PartialEq, Eq)]
pub struct Rread {
    pub data: Vec<u8>,
}

#[derive(Clone, Debug, PartialEq, Eq)]
pub struct Twrite {
    pub fid: u32,
    pub offset: u64,
    pub data: Vec<u8>,
}

#[derive(Clone, Copy, Debug, PartialEq, Eq)]
pub struct Rwrite {
    pub count: u32,
}

#[derive(Clone, Copy, Debug, PartialEq, Eq)]
pub struct Tfsync {
    pub fid: u32,
    pub datasync: u32,
}

#[derive(Clone, Copy, Debug, PartialEq, Eq)]
pub struct Tgetattr {
    pub fid: u32,
    pub request_mask: u64,
}

#[derive(Clone, Copy, Debug, PartialEq, Eq, Structural)]
pub struct Rgetattr {
    pub valid: u64,
    pub qid: Qid,
    pub mode: u32,
    pub uid: u32,
    pub gid: u32,
    pub nlink: u64,
    pub rdev: u64,
    pub size: u64,
    pub blksize: u64,
    pub blocks: u64,
    pub atime_sec: u64,
    pub atime_nsec: u64,
    pub mtime_sec: u64,
    pub mtime_nsec: u64,
    pub ctime_sec: u64,
    pub ctime_nsec: u64,
    pub btime_sec: u64,
    pub btime_nsec: u64,
    pub gen: u64,
    pub data_version: u64,
}

#[derive(Clone, Copy, Debug, PartialEq, Eq)]
pub struct Tsetattr {
    pub fid: u32,
    pub valid: u32,
    pub mode: u32,
    pub uid: u32,
    pub gid: u32,
    pub size: u64,
    pub atime_sec: u64,
    pub atime_nsec: u64,
    pub mtime_sec: u64,
    pub mtime_nsec: u64,
}

#[derive(Clone, Copy, Debug, PartialEq, Eq)]
pub struct Treaddir {
    pub fid: u32,
    pub offset: u64,
    pub count: u32,
}

#[derive(Clone, Debug, PartialEq, Eq)]
pub struct Rreaddir {
    pub data: Vec<u8>,
}

#[derive(Clone, Debug, PartialEq, Eq)]
pub struct Tmkdir {
    pub dfid: u32,
    pub name: String,
    pub mode: u32,
    pub gid: u32,
}

#[derive(Clone, Copy, Debug, PartialEq, Eq)]
pub struct Rmkdir {
    pub qid: Qid,
}

#[derive(Clone, Copy, Debug, PartialEq, Eq)]
pub struct Tremove {
    pub fid: u32,
}

#[derive(Clone, Debug, PartialEq, Eq)]
pub struct Trename {
    pub fid: u32,
    pub dfid: u32,
    pub name: String,
}

#[derive(Clone, Debug, PartialEq, Eq)]
pub struct Trenameat {
    pub olddirfid: u32,
    pub oldname: String,
    pub newdirfid: u32,
    pub newname: String,
}

#[derive(Clone, Debug, PartialEq, Eq)]
pub struct Tunlinkat {
    pub dirfd: u32,
    pub name: String,
    pub flags: u32,
}

#[derive(Clone, Copy, Debug, PartialEq, Eq)]
pub struct Tclunk {
    pub fid: u32,
}

/// One directory entry, as `readdir` sends it.
#[derive(Clone, Debug, PartialEq, Eq)]
pub struct Dirent {
    pub qid: Qid,
    /// Cookie from which enumeration resumes just after this entry.
    pub offset: u64,
    pub ty: u8,
    pub name: String,
}

} // verus!
