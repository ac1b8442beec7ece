//! The file server's state — the exported root and the fid table — and the
//! decisions of each operation.
//!
//! The server never touches the file system itself. For each request it
//! checks the request against the fid table and names the root-confined
//! paths to act on; the caller performs the file-system work and hands the
//! resulting metadata back, from which the server builds the reply and
//! updates the table.
use vstd::prelude::*;
use std::collections::HashMap;
use crate::error::{P9Error, EBADF, EBUSY, EINVAL, ENOENT, ENOTDIR, EPERM};
use crate::path::{HostPath, join_path, join_spec, within, bad_segment, walk_spec};
use crate::protocol::{
    qid_from_stat, qid_of, FileKind, Qid, Rattach, Rgetattr, Rlcreate, Rlopen, Rversion, Rwalk,
    Stat, Tattach, Tclunk, Tfsync, Tgetattr, Tlcreate, Tlopen, Tmkdir, Tread, Treaddir, Tremove,
    Trename, Trenameat, Tsetattr, Tunlinkat, Tversion, Twalk, Twrite, AT_REMOVEDIR, P9_ACCMODE,
    P9_APPEND, P9_CREATE, P9_EXCL, P9_GETATTR_BASIC, P9_RDONLY, P9_RDWR, P9_SETATTR_ATIME,
    P9_SETATTR_ATIME_SET, P9_SETATTR_GID, P9_SETATTR_MODE, P9_SETATTR_MTIME, P9_SETATTR_MTIME_SET,
    P9_SETATTR_SIZE, P9_SETATTR_UID, P9_TRUNC,
};

verus! {

broadcast use vstd::std_specs::hash::group_hash_axioms;

/// Server-side record of a fid.
pub struct Fid {
    /// Where the fid points, below the exported root.
    pub path: HostPath,
    /// Kind of the object it names.
    pub kind: FileKind,
    /// The flags it was opened with, once it is open.
    pub open_flags: Option<u32>,
}

/// The file server: its exported root and the table of live fids.
pub struct Server {
    root: HostPath,
    fids: HashMap<u32, Fid>,
}

/// Whether an open with `flags` may write.
pub open spec fn writable(flags: u32) -> bool {
    flags & P9_ACCMODE != P9_RDONLY || flags & P9_APPEND != 0
}

/// Whether an open with `flags` may read.
pub open spec fn readable(flags: u32) -> bool {
    flags & P9_ACCMODE == P9_RDONLY || flags & P9_ACCMODE == P9_RDWR
}

/// The error, if any, with which opening an object with `flags` fails
/// before any file-system call is made. `exists` tells whether the object
/// already exists.
pub open spec fn open_flags_error(flags: u32, exists: bool) -> Option<i32> {
    if (flags & P9_CREATE != 0 || flags & P9_TRUNC != 0) && !writable(flags) {
        Some(EINVAL)
    } else if flags & P9_APPEND != 0 && flags & P9_TRUNC != 0 {
        Some(EINVAL)
    } else if flags & P9_CREATE != 0 && flags & P9_EXCL != 0 && exists {
        Some(crate::error::EEXIST)
    } else {
        None
    }
}

/// Checks open flags against the compatibility table.
pub fn check_open_flags(flags: u32, exists: bool) -> (r: Result<(), P9Error>)
    ensures
        open_flags_error(flags, exists) matches Some(e) ==> r == Err::<(), P9Error>(P9Error { errno: e }),
        open_flags_error(flags, exists).is_none() ==> r.is_ok(),
{
    let writable = flags & P9_ACCMODE != P9_RDONLY || flags & P9_APPEND != 0;
    if (flags & P9_CREATE != 0 || flags & P9_TRUNC != 0) && !writable {
        Err(P9Error::from_errno(EINVAL))
    } else if flags & P9_APPEND != 0 && flags & P9_TRUNC != 0 {
        Err(P9Error::from_errno(EINVAL))
    } else if flags & P9_CREATE != 0 && flags & P9_EXCL != 0 && exists {
        Err(P9Error::from_errno(crate::error::EEXIST))
    } else {
        Ok(())
    }
}

/// Where a write lands.
#[derive(Clone, Copy, PartialEq, Eq, Debug, Structural)]
pub enum WritePos {
    /// At the given offset.
    At(u64),
    /// At the end of the file, whatever offset was asked for.
    End,
}

/// How a time stamp is to change.
#[derive(Clone, Copy, PartialEq, Eq, Debug, Structural)]
pub enum TimeChange {
    /// Left as it is.
    Keep,
    /// Set to the current time.
    Now,
    /// Set to the given seconds and nanoseconds.
    Given(u64, u64),
}

/// The changes that a `setattr` request makes.
#[derive(Clone, Copy, PartialEq, Eq, Debug, Structural)]
pub struct SetattrPlan {
    /// The new size, when the size changes.
    pub size: Option<u64>,
    pub atime: TimeChange,
    pub mtime: TimeChange,
}

/// The time change that `valid` asks for, with `change` and `set` its bits.
pub open spec fn time_change(valid: u32, change: u32, set: u32, sec: u64, nsec: u64) -> TimeChange {
    if valid & change == 0 {
        TimeChange::Keep
    } else if valid & set != 0 {
        TimeChange::Given(sec, nsec)
    } else {
        TimeChange::Now
    }
}

/// The outcome of a `setattr` request by its fields alone: mode, owner and
/// group changes are refused, size and time changes are passed on.
pub open spec fn setattr_plan(req: Tsetattr) -> Result<SetattrPlan, P9Error> {
    if req.valid & (P9_SETATTR_MODE | P9_SETATTR_UID | P9_SETATTR_GID) != 0 {
        Err(P9Error { errno: EPERM })
    } else {
        Ok(
            SetattrPlan {
                size: if req.valid & P9_SETATTR_SIZE != 0 {
                    Some(req.size)
                } else {
                    None
                },
                atime: time_change(
                    req.valid,
                    P9_SETATTR_ATIME,
                    P9_SETATTR_ATIME_SET,
                    req.atime_sec,
                    req.atime_nsec,
                ),
                mtime: time_change(
                    req.valid,
                    P9_SETATTR_MTIME,
                    P9_SETATTR_MTIME_SET,
                    req.mtime_sec,
                    req.mtime_nsec,
                ),
            },
        )
    }
}

fn plan_time(valid: u32, change: u32, set: u32, sec: u64, nsec: u64) -> (r: TimeChange)
    ensures
        r == time_change(valid, change, set, sec, nsec),
{
    if valid & change == 0 {
        TimeChange::Keep
    } else if valid & set != 0 {
        TimeChange::Given(sec, nsec)
    } else {
        TimeChange::Now
    }
}

/// The reply to `getattr` for an object with metadata `st`: the basic
/// field set, with the fields that this server does not support zeroed.
pub open spec fn getattr_reply(st: Stat) -> Rgetattr {
    Rgetattr {
        valid: P9_GETATTR_BASIC,
        qid: qid_of(st),
        mode: st.mode,
        uid: st.uid,
        gid: st.gid,
        nlink: st.nlink,
        rdev: st.rdev,
        size: st.size,
        blksize: st.blksize,
        blocks: st.blocks,
        atime_sec: st.atime_sec as u64,
        atime_nsec: st.atime_nsec as u64,
        mtime_sec: st.mtime_sec as u64,
        mtime_nsec: st.mtime_nsec as u64,
        ctime_sec: st.ctime_sec as u64,
        ctime_nsec: st.ctime_nsec as u64,
        btime_sec: 0,
        btime_nsec: 0,
        gen: 0,
        data_version: 0,
    }
}

/// The qids that a walk reports for the objects it reached, in order.
pub open spec fn walk_qids(stats: Seq<Stat>) -> Seq<Qid> {
    stats.map_values(|st: Stat| qid_of(st))
}

/// The qid that `getattr` reports for an object is the one that a walk
/// step reaching it reports.
pub proof fn lemma_getattr_qid_is_walk_qid(stats: Seq<Stat>, i: int)
    requires
        0 <= i < stats.len(),
    ensures
        getattr_reply(stats[i]).qid == walk_qids(stats)[i],
{
}

/// The views of a list of names.
pub open spec fn names_view(names: Seq<String>) -> Seq<Seq<char>> {
    names.map_values(|s: String| s@)
}

/// Walking a list of steps and then one more is walking the longer list.
proof fn lemma_walk_push(p: Seq<Seq<char>>, names: Seq<Seq<char>>, name: Seq<char>, root: Seq<Seq<char>>)
    ensures
        walk_spec(p, names.push(name), root) == (match walk_spec(p, names, root) {
            Some(q) => if bad_segment(name) {
                None
            } else {
                Some(join_spec(q, name, root))
            },
            None => None,
        }),
    decreases names.len(),
{
    if names.len() == 0 {
        assert(names.push(name).drop_first() =~= Seq::<Seq<char>>::empty());
        assert(names.push(name)[0] == name);
        assert(walk_spec(join_spec(p, name, root), Seq::<Seq<char>>::empty(), root) == Some(
            join_spec(p, name, root),
        ));
    } else {
        assert(names.push(name)[0] == names[0]);
        assert(names.push(name).drop_first() =~= names.drop_first().push(name));
        if !bad_segment(names[0]) {
            lemma_walk_push(join_spec(p, names[0], root), names.drop_first(), name, root);
        }
    }
}

/// A path result, by its view.
pub open spec fn path_result(r: Result<HostPath, P9Error>) -> Result<Seq<Seq<char>>, P9Error> {
    match r {
        Ok(p) => Ok(p@),
        Err(e) => Err(e),
    }
}

/// A result holding two paths, by their views.
pub open spec fn pair_result(r: Result<(HostPath, HostPath), P9Error>) -> Result<
    (Seq<Seq<char>>, Seq<Seq<char>>),
    P9Error,
> {
    match r {
        Ok((a, b)) => Ok((a@, b@)),
        Err(e) => Err(e),
    }
}

/// The error with number `e`.
pub open spec fn err(e: i32) -> P9Error {
    P9Error { errno: e }
}

/// A fid record with the given fields.
pub open spec fn fid_is(f: Fid, path: Seq<Seq<char>>, kind: FileKind, open_flags: Option<u32>) -> bool {
    f.path@ == path && f.kind == kind && f.open_flags == open_flags
}

/// `new` is `old` with `k` bound to the record with the given fields.
pub open spec fn table_bound(
    new: Map<u32, Fid>,
    old: Map<u32, Fid>,
    k: u32,
    path: Seq<Seq<char>>,
    kind: FileKind,
    open_flags: Option<u32>,
) -> bool {
    &&& new.dom() == old.dom().insert(k)
    &&& fid_is(new[k], path, kind, open_flags)
    &&& forall|j: u32| j != k && old.contains_key(j) ==> new[j] == old[j]
}

impl Server {
    /// The exported root.
    pub closed spec fn root_view(&self) -> Seq<Seq<char>> {
        self.root@
    }

    /// The fid table.
    pub closed spec fn table(&self) -> Map<u32, Fid> {
        self.fids@
    }

    /// Every live fid names the root or a path below it.
    pub open spec fn wf(&self) -> bool {
        forall|k: u32| #[trigger]
            self.table().contains_key(k) ==> within(self.table()[k].path@, self.root_view())
    }

    /// Whether `fid` is live.
    pub open spec fn live(&self, fid: u32) -> bool {
        self.table().contains_key(fid)
    }

    /// Where a live fid points.
    pub open spec fn path_of(&self, fid: u32) -> Seq<Seq<char>> {
        self.table()[fid].path@
    }

    /// `self` and `other` hold the same root and the same fids.
    pub open spec fn same_state(&self, other: &Server) -> bool {
        self.root_view() == other.root_view() && self.table() == other.table()
    }

    /// The child `name` of the directory fid `dfid`, or why there is none.
    pub open spec fn child_spec(&self, dfid: u32, name: Seq<char>) -> Result<Seq<Seq<char>>, P9Error> {
        if !self.live(dfid) {
            Err(err(EBADF))
        } else if self.table()[dfid].kind != FileKind::Directory {
            Err(err(ENOTDIR))
        } else if bad_segment(name) {
            Err(err(EINVAL))
        } else {
            Ok(join_spec(self.path_of(dfid), name, self.root_view()))
        }
    }

    /// A server that exports `root` and has no live fids.
    pub fn new(root: HostPath) -> (r: Server)
        ensures
            r.root_view() == root@,
            r.table() == Map::<u32, Fid>::empty(),
            r.wf(),
    {
        Server { root, fids: HashMap::new() }
    }

    fn lookup(&self, fid: u32) -> (r: Option<&Fid>)
        ensures
            self.live(fid) ==> r == Some(&self.table()[fid]),
            !self.live(fid) ==> r.is_none(),
    {
        self.fids.get(&fid)
    }

    /// The path of a live fid.
    pub fn fid_path(&self, fid: u32) -> (r: Result<HostPath, P9Error>)
        ensures
            path_result(r) == if self.live(fid) {
                Ok::<Seq<Seq<char>>, P9Error>(self.path_of(fid))
            } else {
                Err(err(EBADF))
            },
    {
        match self.lookup(fid) {
            Some(f) => Ok(f.path.copy()),
            None => Err(P9Error::from_errno(EBADF)),
        }
    }

    /// Resolves the child `name` of the directory fid `dfid`.
    pub fn child_path(&self, dfid: u32, name: &str) -> (r: Result<HostPath, P9Error>)
        requires
            self.wf(),
        ensures
            path_result(r) == self.child_spec(dfid, name@),
            r matches Ok(p) ==> within(p@, self.root_view()),
    {
        match self.lookup(dfid) {
            None => Err(P9Error::from_errno(EBADF)),
            Some(f) => {
                if f.kind != FileKind::Directory {
                    return Err(P9Error::from_errno(ENOTDIR));
                }
                assert(within(f.path@, self.root_view()));
                join_path(f.path.copy(), name, &self.root)
            },
        }
    }

    fn bind(&mut self, fid: u32, f: Fid)
        requires
            old(self).wf(),
            within(f.path@, old(self).root_view()),
        ensures
            final(self).wf(),
            final(self).root_view() == old(self).root_view(),
            table_bound(final(self).table(), old(self).table(), fid, f.path@, f.kind, f.open_flags),
    {
        self.fids.insert(fid, f);
        assert(self.table()[fid] == f);
    }

    fn unbind(&mut self, fid: u32) -> (r: Option<Fid>)
        requires
            old(self).wf(),
        ensures
            final(self).wf(),
            final(self).root_view() == old(self).root_view(),
            final(self).table() == old(self).table().remove(fid),
            old(self).live(fid) ==> r == Some(old(self).table()[fid]),
            !old(self).live(fid) ==> r.is_none(),
    {
        self.fids.remove(&fid)
    }
}

/// The paths that a walk from `start` passes through, one per step, or why
/// it cannot be taken.
pub open spec fn walk_steps_ok(
    start: Seq<Seq<char>>,
    names: Seq<Seq<char>>,
    root: Seq<Seq<char>>,
    paths: Seq<Seq<Seq<char>>>,
) -> bool {
    &&& paths.len() == names.len()
    &&& forall|i: int|
        0 <= i < names.len() ==> walk_spec(start, names.take(i + 1), root) == Some(
            #[trigger] paths[i],
        )
}

/// The paths of a list of host paths.
pub open spec fn paths_view(v: Seq<HostPath>) -> Seq<Seq<Seq<char>>> {
    v.map_values(|p: HostPath| p@)
}

impl Server {
    /// Why a walk request cannot be taken at all, if it cannot.
    pub open spec fn walk_error(&self, req: Twalk) -> Option<P9Error> {
        if !self.live(req.fid) {
            Some(err(EBADF))
        } else if req.newfid != req.fid && self.live(req.newfid) {
            Some(err(EBUSY))
        } else if exists|i: int| 0 <= i < req.wnames@.len() && bad_segment(#[trigger] req.wnames@[i]@) {
            Some(err(EINVAL))
        } else {
            None
        }
    }

    /// The paths that the steps of a walk reach, one per name, for the
    /// caller to look up in order. Each is the root or below it.
    pub fn walk_targets(&self, req: &Twalk) -> (r: Result<Vec<HostPath>, P9Error>)
        requires
            self.wf(),
        ensures
            self.walk_error(*req) matches Some(e) ==> r == Err::<Vec<HostPath>, P9Error>(e),
            self.walk_error(*req).is_none() ==> (r matches Ok(v) && walk_steps_ok(
                self.path_of(req.fid),
                names_view(req.wnames@),
                self.root_view(),
                paths_view(v@),
            )),
            r matches Ok(v) ==> forall|i: int| 0 <= i < v@.len() ==> within(#[trigger] v@[i]@, self.root_view()),
    {
        let start = match self.lookup(req.fid) {
            Some(f) => f.path.copy(),
            None => {
                return Err(P9Error::from_errno(EBADF));
            },
        };
        if req.newfid != req.fid && self.fids.contains_key(&req.newfid) {
            return Err(P9Error::from_errno(EBUSY));
        }
        let ghost start_v = start@;
        let ghost names = names_view(req.wnames@);
        assert(within(start_v, self.root_view()));
        let mut out: Vec<HostPath> = Vec::new();
        let mut cur = start;
        let mut i: usize = 0;
        while i < req.wnames.len()
            invariant
                self.wf(),
                self.live(req.fid),
                !(req.newfid != req.fid && self.live(req.newfid)),
                i <= req.wnames@.len(),
                names == names_view(req.wnames@),
                out@.len() == i,
                walk_spec(start_v, names.take(i as int), self.root_view()) == Some(cur@),
                within(cur@, self.root_view()),
                forall|j: int|
                    0 <= j < i ==> walk_spec(start_v, names.take(j + 1), self.root_view()) == Some(
                        #[trigger] out@[j]@,
                    ),
                forall|j: int| 0 <= j < i ==> within(#[trigger] out@[j]@, self.root_view()),
                forall|j: int| 0 <= j < i ==> !bad_segment(#[trigger] req.wnames@[j]@),
            decreases req.wnames@.len() - i,
        {
            let name = req.wnames[i].as_str();
            assert(name@ == names[i as int]);
            proof {
                lemma_walk_push(start_v, names.take(i as int), names[i as int], self.root_view());
                assert(names.take(i + 1) =~= names.take(i as int).push(names[i as int]));
            }
            match join_path(cur, name, &self.root) {
                Ok(next) => {
                    cur = next.copy();
                    out.push(next);
                },
                Err(e) => {
                    assert(bad_segment(req.wnames@[i as int]@));
                    return Err(e);
                },
            }
            i = i + 1;
        }
        proof {
            assert(paths_view(out@).len() == names.len());
            assert forall|j: int| 0 <= j < names.len() implies walk_spec(start_v, names.take(j + 1), self.root_view())
                == Some(#[trigger] paths_view(out@)[j]) by {
                assert(paths_view(out@)[j] == out@[j]@);
            }
        }
        Ok(out)
    }

    /// Completes a walk. `stats` holds the metadata of the objects that the
    /// steps of `walk_targets` reached, in order, up to the first that could
    /// not be reached. A walk whose first step fails fails with `ENOENT`; one
    /// that fails later reports the qids up to there and binds nothing. Only a
    /// walk whose every step succeeds binds `newfid`, to where it ended.
    pub fn finish_walk(&mut self, req: &Twalk, stats: &Vec<Stat>) -> (r: Result<Rwalk, P9Error>)
        requires
            old(self).wf(),
        ensures
            final(self).wf(),
            final(self).root_view() == old(self).root_view(),
            old(self).walk_error(*req) matches Some(e) ==> r == Err::<Rwalk, P9Error>(e)
                && final(self).table() == old(self).table(),
            old(self).walk_error(*req).is_none() && req.wnames@.len() > 0 && stats@.len() == 0
                ==> r == Err::<Rwalk, P9Error>(err(ENOENT)) && final(self).table() == old(self).table(),
            old(self).walk_error(*req).is_none() && (req.wnames@.len() == 0 || stats@.len() > 0) ==> {
                let k = if stats@.len() < req.wnames@.len() {
                    stats@.len()
                } else {
                    req.wnames@.len()
                };
                &&& r matches Ok(rw) && rw.wqids@ == walk_qids(stats@.take(k as int))
                &&& k < req.wnames@.len() ==> final(self).table() == old(self).table()
                &&& k == req.wnames@.len() ==> table_bound(
                    final(self).table(),
                    old(self).table(),
                    req.newfid,
                    walk_spec(
                        old(self).path_of(req.fid),
                        names_view(req.wnames@),
                        old(self).root_view(),
                    ).unwrap(),
                    if k == 0 {
                        old(self).table()[req.fid].kind
                    } else {
                        stats@[k - 1].kind
                    },
                    None,
                )
            },
    {
        let targets = match self.walk_targets(req) {
            Ok(t) => t,
            Err(e) => {
                return Err(e);
            },
        };
        let n = req.wnames.len();
        if n > 0 && stats.len() == 0 {
            return Err(P9Error::from_errno(ENOENT));
        }
        let k = if stats.len() < n {
            stats.len()
        } else {
            n
        };
        let mut wqids: Vec<Qid> = Vec::new();
        let mut i: usize = 0;
        while i < k
            invariant
                k <= stats@.len(),
                i <= k,
                wqids@ == walk_qids(stats@.take(i as int)),
            decreases k - i,
        {
            let q = qid_from_stat(&stats[i]);
            wqids.push(q);
            i = i + 1;
            proof {
                assert(walk_qids(stats@.take(i as int)) =~= walk_qids(stats@.take(i - 1)).push(q));
            }
        }
        if k == n {
            let ghost names = names_view(req.wnames@);
            let (path, kind) = if n == 0 {
                match self.lookup(req.fid) {
                    Some(f) => (f.path.copy(), f.kind),
                    None => {
                        return Err(P9Error::from_errno(EBADF));
                    },
                }
            } else {
                proof {
                    assert(names.take(n as int) =~= names);
                    assert(paths_view(targets@)[n - 1] == targets@[n - 1]@);
                }
                (targets[n - 1].copy(), stats[n - 1].kind)
            };
            proof {
                if n == 0 {
                    assert(names =~= Seq::<Seq<char>>::empty());
                }
                assert(within(path@, self.root_view()));
                assert(stats@.take(k as int) =~= stats@.take(i as int));
            }
            self.bind(req.newfid, Fid { path, kind, open_flags: None });
        }
        Ok(Rwalk { wqids })
    }

    /// Binds `fid` to the exported root, whose metadata is `root_stat`.
    pub fn attach(&mut self, req: &Tattach, root_stat: &Stat) -> (r: Result<Rattach, P9Error>)
        requires
            old(self).wf(),
        ensures
            final(self).wf(),
            final(self).root_view() == old(self).root_view(),
            old(self).live(req.fid) ==> r == Err::<Rattach, P9Error>(err(EBUSY))
                && final(self).table() == old(self).table(),
            !old(self).live(req.fid) ==> r == Ok::<Rattach, P9Error>(Rattach { qid: qid_of(*root_stat) })
                && table_bound(
                final(self).table(),
                old(self).table(),
                req.fid,
                old(self).root_view(),
                root_stat.kind,
                None,
            ),
    {
        if self.fids.contains_key(&req.fid) {
            return Err(P9Error::from_errno(EBUSY));
        }
        let path = self.root.copy();
        assert(path@.subrange(0, path@.len() as int) =~= path@);
        self.bind(req.fid, Fid { path, kind: root_stat.kind, open_flags: None });
        Ok(Rattach { qid: qid_from_stat(root_stat) })
    }

    /// Negotiates the protocol version and starts a new session: every fid is
    /// released. Only `9P2000.L` is spoken; any other version is answered with
    /// `unknown`.
    pub fn version(&mut self, req: &Tversion) -> (r: Rversion)
        requires
            old(self).wf(),
        ensures
            final(self).wf(),
            final(self).root_view() == old(self).root_view(),
            final(self).table() == Map::<u32, Fid>::empty(),
            r.msize == req.msize,
            req.version@ == "9P2000.L"@ ==> r.version@ == "9P2000.L"@,
            req.version@ != "9P2000.L"@ ==> r.version@ == "unknown"@,
    {
        self.fids.clear();
        if crate::path::str_eq(req.version.as_str(), "9P2000.L") {
            Rversion { msize: req.msize, version: String::from_str("9P2000.L") }
        } else {
            Rversion { msize: req.msize, version: String::from_str("unknown") }
        }
    }

    /// The error with which opening `fid` with `flags` fails, if it does.
    pub open spec fn lopen_error(&self, fid: u32, flags: u32) -> Option<P9Error> {
        if !self.live(fid) {
            Some(err(EBADF))
        } else {
            match open_flags_error(flags, true) {
                Some(e) => Some(err(e)),
                None => None,
            }
        }
    }

    /// Checks an open request before the file is opened, and gives the path to
    /// open. The fid names an existing object, so `P9_CREATE | P9_EXCL` fails
    /// with `EEXIST`.
    pub fn check_lopen(&self, req: &Tlopen) -> (r: Result<HostPath, P9Error>)
        ensures
            self.lopen_error(req.fid, req.flags) matches Some(e) ==> r == Err::<HostPath, P9Error>(e),
            self.lopen_error(req.fid, req.flags).is_none() ==> path_result(r) == Ok::<
                Seq<Seq<char>>,
                P9Error,
            >(self.path_of(req.fid)),
    {
        let f = match self.lookup(req.fid) {
            Some(f) => f,
            None => {
                return Err(P9Error::from_errno(EBADF));
            },
        };
        match check_open_flags(req.flags, true) {
            Ok(()) => Ok(f.path.copy()),
            Err(e) => Err(e),
        }
    }

    /// Completes an open: the fid is marked open with the request's flags, and
    /// the reply holds the qid of the opened object, whose metadata is `st`.
    pub fn finish_lopen(&mut self, req: &Tlopen, st: &Stat) -> (r: Result<Rlopen, P9Error>)
        requires
            old(self).wf(),
        ensures
            final(self).wf(),
            final(self).root_view() == old(self).root_view(),
            old(self).lopen_error(req.fid, req.flags) matches Some(e) ==> r == Err::<Rlopen, P9Error>(e)
                && final(self).table() == old(self).table(),
            old(self).lopen_error(req.fid, req.flags).is_none() ==> r == Ok::<Rlopen, P9Error>(
                Rlopen { qid: qid_of(*st), iounit: 0 },
            ) && table_bound(
                final(self).table(),
                old(self).table(),
                req.fid,
                old(self).path_of(req.fid),
                st.kind,
                Some(req.flags),
            ),
    {
        let path = match self.check_lopen(req) {
            Ok(p) => p,
            Err(e) => {
                return Err(e);
            },
        };
        assert(within(path@, self.root_view()));
        self.bind(req.fid, Fid { path, kind: st.kind, open_flags: Some(req.flags) });
        Ok(Rlopen { qid: qid_from_stat(st), iounit: 0 })
    }

    /// The flags with which `lcreate` opens the new file: creation is implied
    /// and never replaces an existing file.
    pub open spec fn lcreate_flags(flags: u32) -> u32 {
        flags | P9_CREATE | P9_EXCL
    }

    /// The outcome of checking a create request, by its fields.
    pub open spec fn lcreate_spec(&self, req: Tlcreate) -> Result<Seq<Seq<char>>, P9Error> {
        match open_flags_error(req.flags | P9_CREATE, false) {
            Some(e) => if self.live(req.fid) {
                Err(err(e))
            } else {
                Err(err(EBADF))
            },
            None => self.child_spec(req.fid, req.name@),
        }
    }

    /// Checks a create request before the file is created, and gives the path
    /// of the new file and the flags to create it with.
    pub fn check_lcreate(&self, req: &Tlcreate) -> (r: Result<(HostPath, u32), P9Error>)
        requires
            self.wf(),
        ensures
            path_result(
                match r {
                    Ok((p, _)) => Ok(p),
                    Err(e) => Err(e),
                },
            ) == self.lcreate_spec(*req),
            r matches Ok((p, fl)) ==> fl == Self::lcreate_flags(req.flags) && within(p@, self.root_view()),
    {
        if !self.fids.contains_key(&req.fid) {
            return Err(P9Error::from_errno(EBADF));
        }
        match check_open_flags(req.flags | P9_CREATE, false) {
            Ok(()) => {},
            Err(e) => {
                return Err(e);
            },
        }
        match self.child_path(req.fid, req.name.as_str()) {
            Ok(p) => Ok((p, req.flags | P9_CREATE | P9_EXCL)),
            Err(e) => Err(e),
        }
    }

    /// Completes a create: the fid, which named the directory, now names the
    /// new file (with metadata `st`), open with the create flags.
    pub fn finish_lcreate(&mut self, req: &Tlcreate, st: &Stat) -> (r: Result<Rlcreate, P9Error>)
        requires
            old(self).wf(),
        ensures
            final(self).wf(),
            final(self).root_view() == old(self).root_view(),
            old(self).lcreate_spec(*req) matches Err(e) ==> r == Err::<Rlcreate, P9Error>(e)
                && final(self).table() == old(self).table(),
            old(self).lcreate_spec(*req) matches Ok(p) ==> r == Ok::<Rlcreate, P9Error>(
                Rlcreate { qid: qid_of(*st), iounit: 0 },
            ) && table_bound(
                final(self).table(),
                old(self).table(),
                req.fid,
                p,
                st.kind,
                Some(Self::lcreate_flags(req.flags)),
            ),
    {
        let (path, flags) = match self.check_lcreate(req) {
            Ok(pf) => pf,
            Err(e) => {
                return Err(e);
            },
        };
        self.bind(req.fid, Fid { path, kind: st.kind, open_flags: Some(flags) });
        Ok(Rlcreate { qid: qid_from_stat(st), iounit: 0 })
    }

    /// The flags a live fid was opened with, if it is open.
    pub open spec fn open_flags_of(&self, fid: u32) -> Option<u32> {
        if self.live(fid) {
            self.table()[fid].open_flags
        } else {
            None
        }
    }

    /// Checks a read: the fid must be open for reading.
    pub fn check_read(&self, req: &Tread) -> (r: Result<(), P9Error>)
        ensures
            r.is_ok() == (self.open_flags_of(req.fid) matches Some(fl) && readable(fl)),
            r matches Err(e) ==> e == err(EBADF),
    {
        match self.lookup(req.fid) {
            Some(f) => match f.open_flags {
                Some(fl) => if fl & P9_ACCMODE == P9_RDONLY || fl & P9_ACCMODE == P9_RDWR {
                    Ok(())
                } else {
                    Err(P9Error::from_errno(EBADF))
                },
                None => Err(P9Error::from_errno(EBADF)),
            },
            None => Err(P9Error::from_errno(EBADF)),
        }
    }

    /// Checks a write and says where it lands: at the end of the file when
    /// the fid was opened with `P9_APPEND`, whatever offset was asked for;
    /// at the requested offset otherwise. The fid must be open for writing.
    pub fn check_write(&self, req: &Twrite) -> (r: Result<WritePos, P9Error>)
        ensures
            r.is_ok() == (self.open_flags_of(req.fid) matches Some(fl) && writable(fl)),
            r matches Err(e) ==> e == err(EBADF),
            r matches Ok(pos) ==> pos == if self.open_flags_of(req.fid).unwrap() & P9_APPEND != 0 {
                WritePos::End
            } else {
                WritePos::At(req.offset)
            },
    {
        match self.lookup(req.fid) {
            Some(f) => match f.open_flags {
                Some(fl) => if fl & P9_ACCMODE != P9_RDONLY || fl & P9_APPEND != 0 {
                    if fl & P9_APPEND != 0 {
                        Ok(WritePos::End)
                    } else {
                        Ok(WritePos::At(req.offset))
                    }
                } else {
                    Err(P9Error::from_errno(EBADF))
                },
                None => Err(P9Error::from_errno(EBADF)),
            },
            None => Err(P9Error::from_errno(EBADF)),
        }
    }

    /// Checks an fsync: the fid must be open.
    pub fn check_fsync(&self, req: &Tfsync) -> (r: Result<(), P9Error>)
        ensures
            r.is_ok() == self.open_flags_of(req.fid).is_some(),
            r matches Err(e) ==> e == err(EBADF),
    {
        match self.lookup(req.fid) {
            Some(f) => if f.open_flags.is_some() {
                Ok(())
            } else {
                Err(P9Error::from_errno(EBADF))
            },
            None => Err(P9Error::from_errno(EBADF)),
        }
    }

    /// The attributes of a live fid's object, whose metadata is `st`.
    pub fn get_attr(&self, req: &Tgetattr, st: &Stat) -> (r: Result<Rgetattr, P9Error>)
        ensures
            self.live(req.fid) ==> r == Ok::<Rgetattr, P9Error>(getattr_reply(*st)),
            !self.live(req.fid) ==> r == Err::<Rgetattr, P9Error>(err(EBADF)),
    {
        if !self.fids.contains_key(&req.fid) {
            return Err(P9Error::from_errno(EBADF));
        }
        Ok(
            Rgetattr {
                valid: P9_GETATTR_BASIC,
                qid: qid_from_stat(st),
                mode: st.mode,
                uid: st.uid,
                gid: st.gid,
                nlink: st.nlink,
                rdev: st.rdev,
                size: st.size,
                blksize: st.blksize,
                blocks: st.blocks,
                atime_sec: st.atime_sec as u64,
                atime_nsec: st.atime_nsec as u64,
                mtime_sec: st.mtime_sec as u64,
                mtime_nsec: st.mtime_nsec as u64,
                ctime_sec: st.ctime_sec as u64,
                ctime_nsec: st.ctime_nsec as u64,
                btime_sec: 0,
                btime_nsec: 0,
                gen: 0,
                data_version: 0,
            },
        )
    }

    /// Checks a `setattr` request and says which changes to make. Mode, owner
    /// and group changes are refused with `EPERM`, whoever asks; only size and
    /// time changes are made.
    pub fn check_set_attr(&self, req: &Tsetattr) -> (r: Result<SetattrPlan, P9Error>)
        ensures
            self.live(req.fid) ==> r == setattr_plan(*req),
            !self.live(req.fid) ==> r == Err::<SetattrPlan, P9Error>(err(EBADF)),
    {
        if !self.fids.contains_key(&req.fid) {
            return Err(P9Error::from_errno(EBADF));
        }
        if req.valid & (P9_SETATTR_MODE | P9_SETATTR_UID | P9_SETATTR_GID) != 0 {
            return Err(P9Error::from_errno(EPERM));
        }
        let size = if req.valid & P9_SETATTR_SIZE != 0 {
            Some(req.size)
        } else {
            None
        };
        Ok(
            SetattrPlan {
                size,
                atime: plan_time(
                    req.valid,
                    P9_SETATTR_ATIME,
                    P9_SETATTR_ATIME_SET,
                    req.atime_sec,
                    req.atime_nsec,
                ),
                mtime: plan_time(
                    req.valid,
                    P9_SETATTR_MTIME,
                    P9_SETATTR_MTIME_SET,
                    req.mtime_sec,
                    req.mtime_nsec,
                ),
            },
        )
    }

    /// Checks a `readdir`: the fid must be a directory that is open.
    pub fn check_readdir(&self, req: &Treaddir) -> (r: Result<(), P9Error>)
        ensures
            !self.live(req.fid) ==> r == Err::<(), P9Error>(err(EBADF)),
            self.live(req.fid) && self.table()[req.fid].kind != FileKind::Directory ==> r == Err::<
                (),
                P9Error,
            >(err(ENOTDIR)),
            self.live(req.fid) && self.table()[req.fid].kind == FileKind::Directory ==> (r.is_ok()
                <==> self.table()[req.fid].open_flags.is_some()),
            r matches Err(e) ==> e == err(EBADF) || e == err(ENOTDIR),
    {
        match self.lookup(req.fid) {
            Some(f) => if f.kind != FileKind::Directory {
                Err(P9Error::from_errno(ENOTDIR))
            } else if f.open_flags.is_some() {
                Ok(())
            } else {
                Err(P9Error::from_errno(EBADF))
            },
            None => Err(P9Error::from_errno(EBADF)),
        }
    }

    /// Checks a `mkdir` and gives the path of the new directory.
    pub fn check_mkdir(&self, req: &Tmkdir) -> (r: Result<HostPath, P9Error>)
        requires
            self.wf(),
        ensures
            path_result(r) == self.child_spec(req.dfid, req.name@),
            r matches Ok(p) ==> within(p@, self.root_view()),
    {
        self.child_path(req.dfid, req.name.as_str())
    }

    /// Releases a fid and gives the path of the object to delete.
    pub fn remove(&mut self, req: &Tremove) -> (r: Result<HostPath, P9Error>)
        requires
            old(self).wf(),
        ensures
            final(self).wf(),
            final(self).root_view() == old(self).root_view(),
            final(self).table() == old(self).table().remove(req.fid),
            path_result(r) == if old(self).live(req.fid) {
                Ok::<Seq<Seq<char>>, P9Error>(old(self).path_of(req.fid))
            } else {
                Err(err(EBADF))
            },
            r matches Ok(p) ==> within(p@, old(self).root_view()),
    {
        match self.unbind(req.fid) {
            Some(f) => Ok(f.path),
            None => Err(P9Error::from_errno(EBADF)),
        }
    }

    /// Releases a fid without any other effect.
    pub fn clunk(&mut self, req: &Tclunk) -> (r: Result<(), P9Error>)
        requires
            old(self).wf(),
        ensures
            final(self).wf(),
            final(self).root_view() == old(self).root_view(),
            final(self).table() == old(self).table().remove(req.fid),
            r.is_ok() == old(self).live(req.fid),
            r matches Err(e) ==> e == err(EBADF),
    {
        match self.unbind(req.fid) {
            Some(_) => Ok(()),
            None => Err(P9Error::from_errno(EBADF)),
        }
    }

    /// The outcome of checking a rename by fid, by its fields.
    pub open spec fn rename_spec(&self, req: Trename) -> Result<(Seq<Seq<char>>, Seq<Seq<char>>), P9Error> {
        if !self.live(req.fid) {
            Err(err(EBADF))
        } else {
            match self.child_spec(req.dfid, req.name@) {
                Ok(p) => Ok((self.path_of(req.fid), p)),
                Err(e) => Err(e),
            }
        }
    }

    /// Checks a rename of what `fid` names to `name` in the directory `dfid`,
    /// and gives the old and the new path.
    pub fn check_rename(&self, req: &Trename) -> (r: Result<(HostPath, HostPath), P9Error>)
        requires
            self.wf(),
        ensures
            pair_result(r) == self.rename_spec(*req),
            r matches Ok((a, b)) ==> within(a@, self.root_view()) && within(b@, self.root_view()),
    {
        let old_path = match self.lookup(req.fid) {
            Some(f) => f.path.copy(),
            None => {
                return Err(P9Error::from_errno(EBADF));
            },
        };
        match self.child_path(req.dfid, req.name.as_str()) {
            Ok(p) => Ok((old_path, p)),
            Err(e) => Err(e),
        }
    }

    /// Completes a rename by fid: the fid follows the object to its new path.
    pub fn finish_rename(&mut self, req: &Trename) -> (r: Result<(), P9Error>)
        requires
            old(self).wf(),
        ensures
            final(self).wf(),
            final(self).root_view() == old(self).root_view(),
            old(self).rename_spec(*req) matches Err(e) ==> r == Err::<(), P9Error>(e)
                && final(self).table() == old(self).table(),
            old(self).rename_spec(*req) matches Ok((_, p)) ==> r.is_ok() && table_bound(
                final(self).table(),
                old(self).table(),
                req.fid,
                p,
                old(self).table()[req.fid].kind,
                old(self).table()[req.fid].open_flags,
            ),
    {
        let (_, new_path) = match self.check_rename(req) {
            Ok(pp) => pp,
            Err(e) => {
                return Err(e);
            },
        };
        match self.unbind(req.fid) {
            Some(f) => {
                self.bind(req.fid, Fid { path: new_path, kind: f.kind, open_flags: f.open_flags });
                assert(self.table().dom() =~= old(self).table().dom().insert(req.fid));
                Ok(())
            },
            None => Err(P9Error::from_errno(EBADF)),
        }
    }

    /// The outcome of checking a rename by directory and name, by its fields.
    pub open spec fn rename_at_spec(&self, req: Trenameat) -> Result<
        (Seq<Seq<char>>, Seq<Seq<char>>),
        P9Error,
    > {
        match self.child_spec(req.olddirfid, req.oldname@) {
            Err(e) => Err(e),
            Ok(a) => match self.child_spec(req.newdirfid, req.newname@) {
                Err(e) => Err(e),
                Ok(b) => Ok((a, b)),
            },
        }
    }

    /// Checks a rename of `oldname` in `olddirfid` to `newname` in
    /// `newdirfid`, and gives the old and the new path.
    pub fn check_rename_at(&self, req: &Trenameat) -> (r: Result<(HostPath, HostPath), P9Error>)
        requires
            self.wf(),
        ensures
            pair_result(r) == self.rename_at_spec(*req),
            r matches Ok((a, b)) ==> within(a@, self.root_view()) && within(b@, self.root_view()),
    {
        let a = match self.child_path(req.olddirfid, req.oldname.as_str()) {
            Ok(p) => p,
            Err(e) => {
                return Err(e);
            },
        };
        match self.child_path(req.newdirfid, req.newname.as_str()) {
            Ok(b) => Ok((a, b)),
            Err(e) => Err(e),
        }
    }

    /// Checks an unlink of `name` in the directory `dirfd`, and gives the
    /// path to delete and whether it is to be deleted as a directory.
    pub fn check_unlink_at(&self, req: &Tunlinkat) -> (r: Result<(HostPath, bool), P9Error>)
        requires
            self.wf(),
        ensures
            path_result(
                match r {
                    Ok((p, _)) => Ok(p),
                    Err(e) => Err(e),
                },
            ) == self.child_spec(req.dirfd, req.name@),
            r matches Ok((p, is_dir)) ==> is_dir == (req.flags & AT_REMOVEDIR != 0) && within(
                p@,
                self.root_view(),
            ),
    {
        match self.child_path(req.dirfd, req.name.as_str()) {
            Ok(p) => Ok((p, req.flags & AT_REMOVEDIR != 0)),
            Err(e) => Err(e),
        }
    }
}

} // verus!
