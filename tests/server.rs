use cros_p9::error::{ErrorKind, P9Error};
use cros_p9::messages::{decode_message, encode_message};
use cros_p9::path::HostPath;
use cros_p9::protocol::{
    qid_from_stat, Dirent, FileKind, Qid, Rgetattr, Rwalk, Stat, Tattach, Tclunk, Tgetattr,
    Tlcreate, Tlopen, Tmkdir, Tread, Treaddir, Tremove, Trename, Trenameat, Tsetattr, Tunlinkat,
    Tversion, Twalk, Twrite, AT_REMOVEDIR, P9_APPEND, P9_CREATE, P9_EXCL, P9_GETATTR_BASIC,
    P9_QTDIR, P9_QTFILE, P9_RDONLY, P9_RDWR, P9_SETATTR_ATIME, P9_SETATTR_ATIME_SET,
    P9_SETATTR_GID, P9_SETATTR_MODE, P9_SETATTR_MTIME, P9_SETATTR_MTIME_SET, P9_SETATTR_SIZE,
    P9_SETATTR_UID, P9_TRUNC, P9_WRONLY,
};
use cros_p9::readdir::readdir_page;
use cros_p9::server::{check_open_flags, Server, SetattrPlan, TimeChange, WritePos};

// Used to indicate that there is no fid associated with this message.
const P9_NOFID: u32 = u32::MAX;

// The fid associated with the root directory of the server.
const ROOT_FID: u32 = 1;

// How big we want the default buffer to be when running tests.
const DEFAULT_BUFFER_SIZE: u32 = 4096;

fn stat(kind: FileKind, ino: u64, mtime: i64) -> Stat {
    Stat {
        kind,
        ino,
        mode: if kind == FileKind::Directory { 0o40755 } else { 0o100644 },
        uid: 1000,
        gid: 1000,
        nlink: 1,
        rdev: 0,
        size: 200,
        blksize: 4096,
        blocks: 8,
        atime_sec: mtime,
        atime_nsec: 5,
        mtime_sec: mtime,
        mtime_nsec: 7,
        ctime_sec: mtime,
        ctime_nsec: 9,
    }
}

// Sets up the server to start handling messages, exporting `name` under a
// temporary directory, and sends an initial Tattach message. At the end of
// setup, fid 1 points to the root of the server.
fn setup(name: &str) -> Server {
    let mut server = Server::new(HostPath::parse(&format!("/tmp/{}.XXXXXX", name)));

    let tversion = Tversion {
        msize: DEFAULT_BUFFER_SIZE,
        version: String::from("9P2000.L"),
    };
    let rversion = server.version(&tversion);
    assert_eq!(rversion.msize, DEFAULT_BUFFER_SIZE);
    assert_eq!(rversion.version, "9P2000.L");

    let tattach = Tattach {
        fid: ROOT_FID,
        afid: P9_NOFID,
        uname: String::from("unittest"),
        aname: String::from(""),
        n_uname: 1000,
    };
    let root_stat = stat(FileKind::Directory, 2, 100);
    let rattach = server
        .attach(&tattach, &root_stat)
        .expect("failed to attach to server");
    assert_eq!(rattach.qid.ty, P9_QTDIR);
    server
}

fn walk_one(server: &mut Server, fid: u32, newfid: u32, name: &str, st: Stat) -> Rwalk {
    let twalk = Twalk {
        fid,
        newfid,
        wnames: vec![String::from(name)],
    };
    server.walk_targets(&twalk).expect("failed to resolve walk");
    server
        .finish_walk(&twalk, &vec![st])
        .expect("failed to walk directory")
}

fn set_attr_test<F>(set_fields: F) -> Result<SetattrPlan, P9Error>
where
    F: FnOnce(&mut Tsetattr),
{
    let mut server = setup("set_attr");

    let name = "existing";
    let fid = ROOT_FID + 1;
    walk_one(&mut server, ROOT_FID, fid, name, stat(FileKind::Regular, 3, 100));

    let mut tsetattr = Tsetattr {
        fid: fid,
        valid: 0,
        mode: 0,
        uid: 0,
        gid: 0,
        size: 0,
        atime_sec: 0,
        atime_nsec: 0,
        mtime_sec: 0,
        mtime_nsec: 0,
    };

    set_fields(&mut tsetattr);
    server.check_set_attr(&tsetattr)
}

#[test]
fn set_len() {
    let len = 661;
    let plan = set_attr_test(|tsetattr| {
        tsetattr.valid = P9_SETATTR_SIZE;
        tsetattr.size = len;
    })
    .expect("failed to run set length of file");

    assert_eq!(plan.size, Some(len));
}

#[test]
fn set_mode() {
    let mode = 0o640;
    let err = set_attr_test(|tsetattr| {
        tsetattr.valid = P9_SETATTR_MODE;
        tsetattr.mode = mode;
    })
    .expect_err("successfully set mode");

    assert_eq!(err.kind(), ErrorKind::PermissionDenied);
}

#[test]
fn set_uid() {
    let uid = 294;
    let err = set_attr_test(|tsetattr| {
        tsetattr.valid = P9_SETATTR_UID;
        tsetattr.uid = uid;
    })
    .expect_err("successfully set uid");

    assert_eq!(err.kind(), ErrorKind::PermissionDenied);
}

#[test]
fn set_gid() {
    let gid = 9024;
    let err = set_attr_test(|tsetattr| {
        tsetattr.valid = P9_SETATTR_GID;
        tsetattr.gid = gid;
    })
    .expect_err("successfully set gid");

    assert_eq!(err.kind(), ErrorKind::PermissionDenied);
}

#[test]
fn set_mtime() {
    let (secs, nanos) = (1245247825, 524617);
    let plan = set_attr_test(|tsetattr| {
        tsetattr.valid = P9_SETATTR_MTIME | P9_SETATTR_MTIME_SET;
        tsetattr.mtime_sec = secs;
        tsetattr.mtime_nsec = nanos;
    })
    .expect("failed to set mtime");

    assert_eq!(plan.mtime, TimeChange::Given(secs, nanos));
    assert_eq!(plan.atime, TimeChange::Keep);
}

#[test]
fn set_atime() {
    let (secs, nanos) = (9247605, 4016);
    let plan = set_attr_test(|tsetattr| {
        tsetattr.valid = P9_SETATTR_ATIME | P9_SETATTR_ATIME_SET;
        tsetattr.atime_sec = secs;
        tsetattr.atime_nsec = nanos;
    })
    .expect("failed to set atime");

    assert_eq!(plan.atime, TimeChange::Given(secs, nanos));
    assert_eq!(plan.size, None);
}

#[test]
fn set_time_now_and_mode_with_size() {
    let plan = set_attr_test(|t| t.valid = P9_SETATTR_MTIME).expect("now");
    assert_eq!(plan.mtime, TimeChange::Now);
    let err = set_attr_test(|t| t.valid = P9_SETATTR_SIZE | P9_SETATTR_MODE).expect_err("mode");
    assert_eq!(err.kind(), ErrorKind::PermissionDenied);
}

fn open_result(flags: u32) -> Result<(), P9Error> {
    let mut server = setup("open");
    let fid = ROOT_FID + 1;
    walk_one(&mut server, ROOT_FID, fid, "test.txt", stat(FileKind::Regular, 3, 100));
    let tlopen = Tlopen { fid, flags };
    server.check_lopen(&tlopen).map(|_| ())
}

#[test]
fn open_flag_matrix() {
    let ok = [
        P9_RDONLY,
        P9_RDWR,
        P9_WRONLY,
        P9_CREATE | P9_RDWR,
        P9_CREATE | P9_WRONLY,
        P9_APPEND | P9_RDONLY,
        P9_APPEND | P9_RDWR,
        P9_APPEND | P9_WRONLY,
        P9_TRUNC | P9_RDWR,
        P9_TRUNC | P9_WRONLY,
        P9_CREATE | P9_APPEND | P9_RDONLY,
        P9_CREATE | P9_APPEND | P9_RDWR,
        P9_CREATE | P9_APPEND | P9_WRONLY,
        P9_CREATE | P9_TRUNC | P9_RDWR,
        P9_CREATE | P9_TRUNC | P9_WRONLY,
    ];
    for flags in ok {
        assert!(open_result(flags).is_ok(), "flags {:o}", flags);
    }
    let invalid = [
        P9_CREATE | P9_RDONLY,
        P9_TRUNC | P9_RDONLY,
        P9_CREATE | P9_TRUNC | P9_RDONLY,
        P9_APPEND | P9_TRUNC | P9_RDONLY,
        P9_APPEND | P9_TRUNC | P9_RDWR,
        P9_APPEND | P9_TRUNC | P9_WRONLY,
        P9_CREATE | P9_APPEND | P9_TRUNC | P9_RDONLY,
        P9_CREATE | P9_APPEND | P9_TRUNC | P9_RDWR,
        P9_CREATE | P9_APPEND | P9_TRUNC | P9_WRONLY,
        P9_CREATE | P9_EXCL | P9_RDONLY,
    ];
    for flags in invalid {
        assert_eq!(open_result(flags).unwrap_err().kind(), ErrorKind::InvalidInput);
    }
    for flags in [P9_CREATE | P9_EXCL | P9_RDWR, P9_CREATE | P9_EXCL | P9_WRONLY] {
        assert_eq!(open_result(flags).unwrap_err().kind(), ErrorKind::AlreadyExists);
    }
    assert!(check_open_flags(P9_CREATE | P9_EXCL | P9_RDWR, false).is_ok());
}

#[test]
fn write_lands_at_end_only_when_appending() {
    for (flags, expected) in [
        (P9_APPEND | P9_WRONLY, WritePos::End),
        (P9_RDWR, WritePos::At(0)),
        (P9_WRONLY, WritePos::At(0)),
    ] {
        let mut server = setup("write");
        let fid = ROOT_FID + 1;
        walk_one(&mut server, ROOT_FID, fid, "f", stat(FileKind::Regular, 3, 1));
        let tlopen = Tlopen { fid, flags };
        let rlopen = server
            .finish_lopen(&tlopen, &stat(FileKind::Regular, 3, 1))
            .expect("open");
        assert_eq!(rlopen.iounit, 0);
        let twrite = Twrite { fid, offset: 0, data: vec![1, 2, 3] };
        assert_eq!(server.check_write(&twrite).expect("write"), expected);
    }
    let mut server = setup("read_only");
    let fid = ROOT_FID + 1;
    walk_one(&mut server, ROOT_FID, fid, "f", stat(FileKind::Regular, 3, 1));
    server
        .finish_lopen(&Tlopen { fid, flags: P9_RDONLY }, &stat(FileKind::Regular, 3, 1))
        .expect("open");
    assert!(server.check_write(&Twrite { fid, offset: 0, data: vec![1] }).is_err());
    assert!(server.check_read(&Tread { fid, offset: 0, count: 10 }).is_ok());
}

#[test]
fn walk_qid_matches_getattr_qid() {
    let mut server = setup("walk");
    let sub = stat(FileKind::Directory, 10, 1234);
    let file = stat(FileKind::Regular, 11, 5678);
    let twalk = Twalk {
        fid: ROOT_FID,
        newfid: 5,
        wnames: vec![String::from("subdir"), String::from("b")],
    };
    let targets = server.walk_targets(&twalk).expect("targets");
    assert_eq!(targets.len(), 2);
    assert_eq!(targets[1].to_text(), "/tmp/walk.XXXXXX/subdir/b");
    let rwalk = server.finish_walk(&twalk, &vec![sub, file]).expect("walk");
    assert_eq!(rwalk.wqids.len(), 2);
    assert_eq!(rwalk.wqids[0], Qid { ty: P9_QTDIR, version: 1234, path: 10 });
    let rgetattr = server
        .get_attr(&Tgetattr { fid: 5, request_mask: P9_GETATTR_BASIC }, &file)
        .expect("getattr");
    assert_eq!(rgetattr.qid, rwalk.wqids[1]);
    assert_eq!(rgetattr.qid, qid_from_stat(&file));
    assert_eq!(rgetattr.qid.ty, P9_QTFILE);
    assert_eq!(rgetattr.valid, P9_GETATTR_BASIC);
    assert_eq!(rgetattr.mtime_nsec, 7);
    assert_eq!(rgetattr.btime_sec, 0);
    assert_eq!(rgetattr.gen, 0);
}

#[test]
fn partial_and_failed_walks() {
    let mut server = setup("partial");
    let twalk = Twalk {
        fid: ROOT_FID,
        newfid: 7,
        wnames: vec![String::from("a"), String::from("missing")],
    };
    let rwalk = server
        .finish_walk(&twalk, &vec![stat(FileKind::Directory, 4, 1)])
        .expect("partial walk");
    assert_eq!(rwalk.wqids.len(), 1);
    assert!(server.fid_path(7).is_err());

    let err = server.finish_walk(&twalk, &Vec::new()).expect_err("first step");
    assert_eq!(err.kind(), ErrorKind::NotFound);

    let bad = Twalk { fid: ROOT_FID, newfid: 8, wnames: vec![String::from(".")] };
    assert_eq!(server.walk_targets(&bad).unwrap_err().kind(), ErrorKind::InvalidInput);

    let unknown = Twalk { fid: 99, newfid: 8, wnames: Vec::new() };
    assert_eq!(server.walk_targets(&unknown).unwrap_err().kind(), ErrorKind::NotFound);

    let clone = Twalk { fid: ROOT_FID, newfid: 8, wnames: Vec::new() };
    let rwalk = server.finish_walk(&clone, &Vec::new()).expect("clone");
    assert!(rwalk.wqids.is_empty());
    assert_eq!(server.fid_path(8).unwrap(), server.fid_path(ROOT_FID).unwrap());
    assert_eq!(server.walk_targets(&clone).unwrap_err().kind(), ErrorKind::AlreadyInUse);
}

#[test]
fn attach_twice_is_in_use() {
    let mut server = setup("attach");
    let tattach = Tattach {
        fid: ROOT_FID,
        afid: P9_NOFID,
        uname: String::from("u"),
        aname: String::new(),
        n_uname: 0,
    };
    let err = server
        .attach(&tattach, &stat(FileKind::Directory, 2, 1))
        .expect_err("attached twice");
    assert_eq!(err.kind(), ErrorKind::AlreadyInUse);
}

#[test]
fn create_repoints_fid_to_new_file() {
    let mut server = setup("create");
    let fid = ROOT_FID + 1;
    let clone = Twalk { fid: ROOT_FID, newfid: fid, wnames: Vec::new() };
    server.finish_walk(&clone, &Vec::new()).expect("clone");
    let tlcreate = Tlcreate {
        fid,
        name: String::from("foo.txt"),
        flags: P9_RDWR,
        mode: 0o600,
        gid: 0,
    };
    let (path, flags) = server.check_lcreate(&tlcreate).expect("check");
    assert_eq!(path.to_text(), "/tmp/create.XXXXXX/foo.txt");
    assert_eq!(flags, P9_RDWR | P9_CREATE | P9_EXCL);
    let rlcreate = server
        .finish_lcreate(&tlcreate, &stat(FileKind::Regular, 20, 3))
        .expect("create");
    assert_eq!(rlcreate.iounit, 0);
    assert_eq!(server.fid_path(fid).unwrap(), path);

    let read_only = Tlcreate { flags: P9_RDONLY, ..tlcreate.clone() };
    assert_eq!(
        server.check_lcreate(&read_only).unwrap_err().kind(),
        ErrorKind::InvalidInput
    );
}

#[test]
fn rename() {
    let mut server = setup("rename");
    let fid = ROOT_FID + 1;
    walk_one(&mut server, ROOT_FID, fid, "oldfile", stat(FileKind::Regular, 3, 1));
    let trename = Trename { fid, dfid: ROOT_FID, name: String::from("newfile") };
    let (old, new) = server.check_rename(&trename).expect("check");
    assert_eq!(old.to_text(), "/tmp/rename.XXXXXX/oldfile");
    assert_eq!(new.to_text(), "/tmp/rename.XXXXXX/newfile");
    server.finish_rename(&trename).expect("rename");
    assert_eq!(server.fid_path(fid).unwrap(), new);
    assert!(server.fid_path(fid).unwrap() != old);
}

#[test]
fn rename_at() {
    let server = setup("rename");
    let name = "oldfile";
    let newname = "newfile";
    let trename = Trenameat {
        olddirfid: ROOT_FID,
        oldname: String::from(name),
        newdirfid: ROOT_FID,
        newname: String::from(newname),
    };
    let (a, b) = server.check_rename_at(&trename).expect("failed to rename file");
    assert_eq!(a.to_text(), "/tmp/rename.XXXXXX/oldfile");
    assert_eq!(b.to_text(), "/tmp/rename.XXXXXX/newfile");
}

#[test]
fn remove_unlink_and_clunk() {
    let mut server = setup("remove");
    let fid = ROOT_FID + 1;
    walk_one(&mut server, ROOT_FID, fid, "d", stat(FileKind::Directory, 3, 1));
    let tunlinkat = Tunlinkat { dirfd: fid, name: String::from("x"), flags: AT_REMOVEDIR };
    let (p, is_dir) = server.check_unlink_at(&tunlinkat).expect("unlink");
    assert!(is_dir);
    assert_eq!(p.to_text(), "/tmp/remove.XXXXXX/d/x");
    let tmkdir = Tmkdir { dfid: fid, name: String::from("conan"), mode: 0o755, gid: 0 };
    assert_eq!(server.check_mkdir(&tmkdir).unwrap().to_text(), "/tmp/remove.XXXXXX/d/conan");
    let removed = server.remove(&Tremove { fid }).expect("remove");
    assert_eq!(removed.to_text(), "/tmp/remove.XXXXXX/d");
    assert_eq!(server.remove(&Tremove { fid }).unwrap_err().kind(), ErrorKind::NotFound);
    server.clunk(&Tclunk { fid: ROOT_FID }).expect("failed to clunk root fid");
    assert!(server.clunk(&Tclunk { fid: ROOT_FID }).is_err());
}

#[test]
fn readdir_requires_open_directory() {
    let mut server = setup("readdir");
    let treaddir = Treaddir { fid: ROOT_FID, offset: 0, count: DEFAULT_BUFFER_SIZE };
    assert!(server.check_readdir(&treaddir).is_err());
    server
        .finish_lopen(&Tlopen { fid: ROOT_FID, flags: P9_RDONLY }, &stat(FileKind::Directory, 2, 1))
        .expect("open dir");
    assert!(server.check_readdir(&treaddir).is_ok());
}

fn dirent(i: u64, name: &str) -> Dirent {
    Dirent {
        qid: Qid { ty: P9_QTFILE, version: 1, path: i },
        offset: i + 1,
        ty: 8,
        name: String::from(name),
    }
}

#[test]
fn huge_directory() {
    let entries: Vec<Dirent> = (0..4096u64).map(|i| dirent(i, &format!("file_{}", i))).collect();
    let mut seen = Vec::new();
    let mut start = 0usize;
    loop {
        let (bytes, n) = readdir_page(&entries[start..].to_vec(), DEFAULT_BUFFER_SIZE);
        if n == 0 {
            assert!(bytes.is_empty());
            break;
        }
        assert!(bytes.len() <= DEFAULT_BUFFER_SIZE as usize);
        let mut pos = 0usize;
        for _ in 0..n {
            let (d, used) = decode_message::<Dirent>(&bytes[pos..]).expect("decode dirent");
            pos += used;
            seen.push(d.name.clone());
        }
        assert_eq!(pos, bytes.len());
        start += n;
    }
    assert_eq!(seen.len(), 4096);
    let mut sorted = seen.clone();
    sorted.sort();
    sorted.dedup();
    assert_eq!(sorted.len(), 4096);
    assert_eq!(seen[4095], "file_4095");
}

#[test]
fn readdir_page_stops_before_overflow() {
    let entries = vec![dirent(0, "a"), dirent(1, "b")];
    // A dirent is 13 + 8 + 1 + 2 + name bytes.
    let (bytes, n) = readdir_page(&entries, 25);
    assert_eq!(n, 1);
    assert_eq!(bytes.len(), 25);
    let (bytes, n) = readdir_page(&entries, 24);
    assert_eq!(n, 0);
    assert!(bytes.is_empty());
}

#[test]
fn wire_round_trips() {
    let twalk = Twalk { fid: 1, newfid: 2, wnames: vec![String::from("a"), String::new()] };
    let bytes = encode_message(&twalk);
    assert_eq!(bytes, vec![1, 0, 0, 0, 2, 0, 0, 0, 2, 0, 1, 0, b'a', 0, 0]);
    let (back, used) = decode_message::<Twalk>(&bytes).expect("decode");
    assert_eq!(back, twalk);
    assert_eq!(used, bytes.len());

    let empty = Twalk { fid: 0, newfid: 0, wnames: Vec::new() };
    let bytes = encode_message(&empty);
    assert_eq!(decode_message::<Twalk>(&bytes).unwrap().0, empty);

    let rwalk = Rwalk { wqids: vec![Qid { ty: P9_QTDIR, version: 0x01020304, path: 9 }] };
    let bytes = encode_message(&rwalk);
    assert_eq!(&bytes[..6], &[1, 0, 0x80, 4, 3, 2]);
    assert_eq!(decode_message::<Rwalk>(&bytes).unwrap().0, rwalk);

    let twrite = Twrite { fid: 3, offset: u64::MAX, data: Vec::new() };
    assert_eq!(decode_message::<Twrite>(&encode_message(&twrite)).unwrap().0, twrite);

    let tversion = Tversion { msize: 8192, version: String::from("9P2000.L") };
    assert_eq!(decode_message::<Tversion>(&encode_message(&tversion)).unwrap().0, tversion);

    let g = Rgetattr {
        valid: P9_GETATTR_BASIC,
        qid: Qid { ty: 0, version: 1, path: 2 },
        mode: 3,
        uid: 4,
        gid: 5,
        nlink: 6,
        rdev: 7,
        size: 8,
        blksize: 9,
        blocks: 10,
        atime_sec: 11,
        atime_nsec: 12,
        mtime_sec: 13,
        mtime_nsec: 14,
        ctime_sec: 15,
        ctime_nsec: 16,
        btime_sec: 0,
        btime_nsec: 0,
        gen: 0,
        data_version: 0,
    };
    assert_eq!(decode_message::<Rgetattr>(&encode_message(&g)).unwrap().0, g);
}

#[test]
fn wire_rejects_truncated_and_bad_utf8() {
    let tversion = Tversion { msize: 1, version: String::from("abc") };
    let bytes = encode_message(&tversion);
    assert!(decode_message::<Tversion>(&bytes[..bytes.len() - 1]).is_none());
    let mut bad = bytes.clone();
    let last = bad.len() - 1;
    bad[last] = 0xff;
    assert!(decode_message::<Tversion>(&bad).is_none());
    assert!(decode_message::<Tversion>(&[]).is_none());
}

#[test]
fn clunk() {
    let mut server = setup("clunk");

    let tclunk = Tclunk { fid: ROOT_FID };
    server.clunk(&tclunk).expect("failed to clunk root fid");
}

fn check_attr(server: &Server, fid: u32, md: &Stat) {
    let tgetattr = Tgetattr { fid, request_mask: P9_GETATTR_BASIC };
    let rgetattr = server.get_attr(&tgetattr, md).expect("failed to call get_attr");
    assert_eq!(rgetattr.valid, P9_GETATTR_BASIC);
    assert_eq!(rgetattr.qid, qid_from_stat(md));
    assert_eq!(rgetattr.qid.version, md.mtime_sec as u32);
    assert_eq!(rgetattr.qid.path, md.ino);
    assert_eq!(rgetattr.mode, md.mode);
    assert_eq!(rgetattr.uid, md.uid);
    assert_eq!(rgetattr.gid, md.gid);
    assert_eq!(rgetattr.nlink, md.nlink);
    assert_eq!(rgetattr.rdev, md.rdev);
    assert_eq!(rgetattr.size, md.size);
    assert_eq!(rgetattr.atime_sec, md.atime_sec as u64);
    assert_eq!(rgetattr.atime_nsec, md.atime_nsec as u64);
    assert_eq!(rgetattr.mtime_sec, md.mtime_sec as u64);
    assert_eq!(rgetattr.mtime_nsec, md.mtime_nsec as u64);
    assert_eq!(rgetattr.ctime_sec, md.ctime_sec as u64);
    assert_eq!(rgetattr.ctime_nsec, md.ctime_nsec as u64);
    assert_eq!(rgetattr.btime_sec, 0);
    assert_eq!(rgetattr.btime_nsec, 0);
    assert_eq!(rgetattr.gen, 0);
    assert_eq!(rgetattr.data_version, 0);
}

#[test]
fn get_attr() {
    let server = setup("get_attr");
    let md = stat(FileKind::Directory, 2, 100);
    check_attr(&server, ROOT_FID, &md);
}

#[test]
fn mkdir() {
    let server = setup("mkdir");
    let name = "conan";
    let tmkdir = Tmkdir { dfid: ROOT_FID, name: String::from(name), mode: 0o755, gid: 0 };
    let path = server.check_mkdir(&tmkdir).expect("failed to create directory");
    assert_eq!(path.to_text(), "/tmp/mkdir.XXXXXX/conan");
    let md = stat(FileKind::Directory, 30, 4);
    assert_eq!(qid_from_stat(&md).ty, P9_QTDIR);
}

// The tree that setup's directory holds: (path below the root, kind, inode).
fn tree() -> Vec<(Vec<&'static str>, FileKind, u64)> {
    vec![
        (vec!["subdir"], FileKind::Directory, 10),
        (vec!["subdir", "b"], FileKind::Regular, 11),
        (vec!["subdir", "nested"], FileKind::Directory, 12),
        (vec!["subdir", "nested", "fire"], FileKind::Regular, 13),
        (vec!["world.txt"], FileKind::Regular, 14),
    ]
}

fn walk_path(server: &mut Server, newfid: u32, names: &[&str]) -> Rwalk {
    let all = tree();
    let mut stats = Vec::new();
    for i in 0..names.len() {
        let (_, kind, ino) = all
            .iter()
            .find(|(p, _, _)| p.as_slice() == &names[..i + 1])
            .expect("entry exists");
        stats.push(stat(*kind, *ino, 50));
    }
    let twalk = Twalk {
        fid: ROOT_FID,
        newfid,
        wnames: names.iter().map(|n| String::from(*n)).collect(),
    };
    server.finish_walk(&twalk, &stats).expect("failed to walk")
}

#[test]
fn tree_walk() {
    let mut server = setup("readdir");
    let mut next_fid = ROOT_FID + 1;
    for (path, kind, ino) in tree() {
        let fid = next_fid;
        next_fid += 1;
        let rwalk = walk_path(&mut server, fid, &path);
        assert_eq!(rwalk.wqids.len(), path.len());
        let md = stat(kind, ino, 50);
        assert_eq!(*rwalk.wqids.last().unwrap(), qid_from_stat(&md));
        check_attr(&server, fid, &md);
        let tclunk = Tclunk { fid };
        server.clunk(&tclunk).expect("failed to clunk fid");
    }
}

#[test]
fn remove_all() {
    let mut server = setup("readdir");
    let mut next_fid = ROOT_FID + 1;
    let mut fids = Vec::new();
    for (path, _, _) in tree() {
        let fid = next_fid;
        next_fid += 1;
        walk_path(&mut server, fid, &path);
        fids.push((fid, path));
    }
    // Now remove everything in reverse order.
    while let Some((fid, path)) = fids.pop() {
        let removed = server.remove(&Tremove { fid }).expect("failed to remove entry");
        assert_eq!(removed.to_text(), format!("/tmp/readdir.XXXXXX/{}", path.join("/")));
        assert!(server.fid_path(fid).is_err());
    }
}

#[test]
fn unlink_all() {
    let mut server = setup("readdir");
    let mut next_fid = ROOT_FID + 1;
    let mut dir_fids = vec![(ROOT_FID, Vec::<&str>::new())];
    for (path, kind, _) in tree() {
        if kind == FileKind::Directory {
            let fid = next_fid;
            next_fid += 1;
            walk_path(&mut server, fid, &path);
            dir_fids.push((fid, path));
        }
    }
    // Now remove everything in reverse order.
    let mut unlinked = 0;
    while let Some((dfid, dir)) = dir_fids.pop() {
        for (path, kind, _) in tree() {
            if path.len() != dir.len() + 1 || path[..dir.len()] != dir[..] {
                continue;
            }
            let tunlinkat = Tunlinkat {
                dirfd: dfid,
                name: String::from(*path.last().unwrap()),
                flags: if kind == FileKind::Directory { AT_REMOVEDIR } else { 0 },
            };
            let (p, is_dir) = server.check_unlink_at(&tunlinkat).expect("failed to unlink path");
            assert_eq!(is_dir, kind == FileKind::Directory);
            assert_eq!(p.to_text(), format!("/tmp/readdir.XXXXXX/{}", path.join("/")));
            unlinked += 1;
        }
    }
    assert_eq!(unlinked, tree().len());
}
