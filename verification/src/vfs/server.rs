//! The NFSv3 view of the virtual file system: the status codes that file system errors map
//! to, the attributes that metadata gives, and how attribute changes apply to metadata.

use vstd::prelude::*;
use chrono::TimeZone;
use intaglio::{Symbol, SymbolTable};
use crate::text::{chars_of, copy_str, string_of};
use crate::vfs::path::{join_components, join_prefix};
use crate::vfs::error::VfsError;
use crate::vfs::metadata::{now_timestamp, perms_of, type_of, Metadata, Mode, ModeType, Timestamp};

verus! {

#[verifier::external_type_specification]
#[verifier::external_body]
#[verifier::reject_recursive_types(S)]
pub struct ExSymbolTable<S>(intaglio::SymbolTable<S>);

#[verifier::external_type_specification]
#[verifier::external_body]
pub struct ExSymbol(intaglio::Symbol);

/// An NFSv3 status.
#[derive(Debug, Clone, Copy, PartialEq, Eq, Structural)]
pub enum NfsStatus {
    /// `NFS3_OK`
    Success,
    /// `NFS3ERR_PERM`
    Perm,
    /// `NFS3ERR_NOENT`
    NoEnt,
    /// `NFS3ERR_IO`
    Io,
    /// `NFS3ERR_EXIST`
    Exist,
    /// `NFS3ERR_NOTDIR`
    NotDir,
    /// `NFS3ERR_ISDIR`
    IsDir,
    /// `NFS3ERR_INVAL`
    Inval,
    /// `NFS3ERR_ROFS`
    RoFs,
    /// `NFS3ERR_NOTEMPTY`
    NotEmpty,
    /// `NFS3ERR_STALE`
    Stale,
    /// `NFS3ERR_NOTSUPP`
    NotSupp,
}

/// The number of a status on the wire.
pub open spec fn status_code(s: NfsStatus) -> u32 {
    match s {
        NfsStatus::Success => 0,
        NfsStatus::Perm => 1,
        NfsStatus::NoEnt => 2,
        NfsStatus::Io => 5,
        NfsStatus::Exist => 17,
        NfsStatus::NotDir => 20,
        NfsStatus::IsDir => 21,
        NfsStatus::Inval => 22,
        NfsStatus::RoFs => 30,
        NfsStatus::NotEmpty => 66,
        NfsStatus::Stale => 70,
        NfsStatus::NotSupp => 10004,
    }
}

impl NfsStatus {
    /// The number of the status on the wire.
    pub fn code(self) -> (c: u32)
        ensures
            c == status_code(self),
    {
        match self {
            NfsStatus::Success => 0,
            NfsStatus::Perm => 1,
            NfsStatus::NoEnt => 2,
            NfsStatus::Io => 5,
            NfsStatus::Exist => 17,
            NfsStatus::NotDir => 20,
            NfsStatus::IsDir => 21,
            NfsStatus::Inval => 22,
            NfsStatus::RoFs => 30,
            NfsStatus::NotEmpty => 66,
            NfsStatus::Stale => 70,
            NfsStatus::NotSupp => 10004,
        }
    }
}

/// The status that reports a file system error.
pub open spec fn vfs_status(e: VfsError) -> NfsStatus {
    match e {
        VfsError::ParentDirectoryNotFound(_) => NfsStatus::NoEnt,
        VfsError::AlreadyExists(_) => NfsStatus::Exist,
        VfsError::NotFound(_) => NfsStatus::NoEnt,
        VfsError::NotADirectory(_) => NfsStatus::NotDir,
        VfsError::NotAFile(_) => NfsStatus::Inval,
        VfsError::NotASymlink(_) => NfsStatus::Inval,
        VfsError::NotEmpty(_) => NfsStatus::NotEmpty,
        VfsError::InvalidOffset { .. } => NfsStatus::Inval,
        VfsError::PermissionDenied(_) => NfsStatus::Perm,
        VfsError::ReadOnlyFilesystem => NfsStatus::RoFs,
        VfsError::InvalidSymlinkTarget(_) => NfsStatus::Inval,
        VfsError::EmptyPathSegment => NfsStatus::Inval,
        VfsError::InvalidPathComponent(_) => NfsStatus::Inval,
        VfsError::Io(_) => NfsStatus::Io,
        VfsError::OverlayFileSystemRequiresAtLeastOneLayer => NfsStatus::Inval,
        VfsError::Custom(_) => NfsStatus::Io,
    }
}

/// The status that reports a file system error.
pub fn status_of(e: &VfsError) -> (s: NfsStatus)
    ensures
        s == vfs_status(*e),
{
    match e {
        VfsError::ParentDirectoryNotFound(_) => NfsStatus::NoEnt,
        VfsError::AlreadyExists(_) => NfsStatus::Exist,
        VfsError::NotFound(_) => NfsStatus::NoEnt,
        VfsError::NotADirectory(_) => NfsStatus::NotDir,
        VfsError::NotAFile(_) => NfsStatus::Inval,
        VfsError::NotASymlink(_) => NfsStatus::Inval,
        VfsError::NotEmpty(_) => NfsStatus::NotEmpty,
        VfsError::InvalidOffset { .. } => NfsStatus::Inval,
        VfsError::PermissionDenied(_) => NfsStatus::Perm,
        VfsError::ReadOnlyFilesystem => NfsStatus::RoFs,
        VfsError::InvalidSymlinkTarget(_) => NfsStatus::Inval,
        VfsError::EmptyPathSegment => NfsStatus::Inval,
        VfsError::InvalidPathComponent(_) => NfsStatus::Inval,
        VfsError::Io(_) => NfsStatus::Io,
        VfsError::OverlayFileSystemRequiresAtLeastOneLayer => NfsStatus::Inval,
        VfsError::Custom(_) => NfsStatus::Io,
    }
}

/// The type of a file as NFSv3 names it.
#[derive(Debug, Clone, Copy, PartialEq, Eq, Structural)]
pub enum FileType {
    /// `NF3REG`
    Regular,
    /// `NF3DIR`
    Directory,
    /// `NF3LNK`
    Symlink,
}

/// A time as NFSv3 sends it.
#[derive(Debug, Clone, Copy, PartialEq, Eq, Structural)]
pub struct NfsTime {
    /// Seconds since the Unix epoch.
    pub seconds: u32,
    /// Nanoseconds within the second.
    pub nseconds: u32,
}

/// The attributes of a file as NFSv3 sends them (`fattr3`); the device numbers are always 0.
#[derive(Debug, Clone, Copy, PartialEq, Eq, Structural)]
pub struct FileAttr {
    /// The type of the file.
    pub ftype: FileType,
    /// The permission bits.
    pub mode: u32,
    /// The number of hard links: always 1.
    pub nlink: u32,
    /// The owner's user id.
    pub uid: u32,
    /// The owner's group id.
    pub gid: u32,
    /// The size in bytes.
    pub size: u64,
    /// The bytes used: the size.
    pub used: u64,
    /// The file system id: always 0.
    pub fsid: u64,
    /// The file id.
    pub fileid: u64,
    /// The time of the last access.
    pub atime: NfsTime,
    /// The time of the last modification.
    pub mtime: NfsTime,
    /// The time of the last status change: the creation time.
    pub ctime: NfsTime,
}

/// The NFS time of a timestamp: its seconds cut to 32 bits, and no nanoseconds.
pub open spec fn nfs_time_of(t: Timestamp) -> NfsTime {
    NfsTime { seconds: t.secs as u32, nseconds: 0 }
}

/// The NFS type of a file type.
pub open spec fn file_type_of(t: ModeType) -> FileType {
    match t {
        ModeType::File => FileType::Regular,
        ModeType::Directory => FileType::Directory,
        ModeType::Symlink => FileType::Symlink,
    }
}

/// The attributes that the metadata of the file with id `id` gives.
pub open spec fn attr_of(md: Metadata, id: u64, t: ModeType) -> FileAttr {
    FileAttr {
        ftype: file_type_of(t),
        mode: md.spec_mode().0 & 0o777,
        nlink: 1,
        uid: md.spec_uid(),
        gid: md.spec_gid(),
        size: md.spec_size(),
        used: md.spec_size(),
        fsid: 0,
        fileid: id,
        atime: nfs_time_of(md.spec_accessed_at()),
        mtime: nfs_time_of(md.spec_modified_at()),
        ctime: nfs_time_of(md.spec_created_at()),
    }
}

/// The attributes served for a file whose metadata names a type: its id, its owner and group,
/// its access, modification and creation times, one link, the bytes used equal to its size,
/// the lower nine bits of its mode as the mode, file system 0, and the NFS type of its
/// metadata's type.
pub proof fn law_served_attributes(md: Metadata, id: u64, t: ModeType)
    ensures
        ({
            let a = attr_of(md, id, t);
            &&& a.fileid == id
            &&& a.uid == md.spec_uid()
            &&& a.gid == md.spec_gid()
            &&& a.atime == nfs_time_of(md.spec_accessed_at())
            &&& a.mtime == nfs_time_of(md.spec_modified_at())
            &&& a.ctime == nfs_time_of(md.spec_created_at())
            &&& a.nlink == 1
            &&& a.size == md.spec_size()
            &&& a.used == a.size
            &&& a.mode <= 0o777
            &&& a.mode == md.spec_mode().0 % 512
            &&& a.fsid == 0
            &&& a.ftype == file_type_of(t)
        }),
{
    let x = md.spec_mode().0;
    assert(x & 0o777 <= 0o777) by (bit_vector);
    assert(x & 0o777 == x % 512) by (bit_vector);
}

/// The NFS time of a timestamp.
fn nfs_time(t: &Timestamp) -> (r: NfsTime)
    ensures
        r == nfs_time_of(*t),
{
    NfsTime { seconds: #[verifier::truncate] (t.secs as u32), nseconds: 0 }
}

/// The attributes of the file with id `id` and metadata `md`; metadata whose mode names no
/// known file type gives `Inval`.
pub fn file_attr(md: &Metadata, id: u64) -> (r: Result<FileAttr, NfsStatus>)
    ensures
        match type_of(md.spec_mode().0) {
            Some(t) => r == Result::<FileAttr, NfsStatus>::Ok(attr_of(*md, id, t)),
            None => r == Result::<FileAttr, NfsStatus>::Err(NfsStatus::Inval),
        },
{
    let ftype = match md.get_type() {
        Some(ModeType::File) => FileType::Regular,
        Some(ModeType::Directory) => FileType::Directory,
        Some(ModeType::Symlink) => FileType::Symlink,
        None => return Err(NfsStatus::Inval),
    };
    let mode = md.get_mode().0 & 0o777;
    Ok(FileAttr {
        ftype,
        mode,
        nlink: 1,
        uid: md.get_uid(),
        gid: md.get_gid(),
        size: md.get_size(),
        used: md.get_size(),
        fsid: 0,
        fileid: id,
        atime: nfs_time(md.get_accessed_at()),
        mtime: nfs_time(md.get_modified_at()),
        ctime: nfs_time(md.get_created_at()),
    })
}

/// How an attribute change sets a time (`set_atime` / `set_mtime`).
#[derive(Debug, Clone, Copy, PartialEq, Eq, Structural)]
pub enum TimeChange {
    /// Leave the time alone.
    DontChange,
    /// Set it to the server's current time.
    ServerTime,
    /// Set it to the time that the client gave.
    ClientTime(NfsTime),
}

/// The attributes that a client asks to change (`sattr3`); `None` leaves one alone.
#[derive(Debug, Clone, Copy, PartialEq, Eq, Structural)]
pub struct SetAttr {
    /// New permission bits (the bits above the lower nine are ignored).
    pub mode: Option<u32>,
    /// New owner user id.
    pub uid: Option<u32>,
    /// New owner group id.
    pub gid: Option<u32>,
    /// New size.
    pub size: Option<u64>,
    /// How to set the access time.
    pub atime: TimeChange,
    /// How to set the modification time.
    pub mtime: TimeChange,
}

/// The timestamp that `chrono` makes of a client's time, when it makes one
/// (`Utc.timestamp_opt(seconds, nseconds).earliest()`): a time within its second, or a leap
/// second's nanoseconds in the last second of a minute.
pub open spec fn client_time(t: NfsTime) -> Option<Timestamp> {
    if t.nseconds < 1_000_000_000 || (t.nseconds < 2_000_000_000 && t.seconds % 60 == 59) {
        Some(Timestamp { secs: t.seconds as i64, nanos: t.nseconds })
    } else {
        None
    }
}

/// Converts a client's time to a timestamp with `chrono`
/// (`Utc.timestamp_opt(seconds as i64, nseconds).earliest()`). chrono's source makes a time
/// for seconds of 32 bits exactly when the nanoseconds are under one second, or under two
/// seconds in the last second of a minute (a leap second), and the time it makes has those
/// seconds and nanoseconds.
#[verifier::external_body]
fn client_timestamp(t: NfsTime) -> (r: Option<Timestamp>)
    ensures
        r == client_time(t),
{
    match chrono::Utc.timestamp_opt(t.seconds as i64, t.nseconds).earliest() {
        Some(dt) => Some(Timestamp { secs: dt.timestamp(), nanos: dt.timestamp_subsec_nanos() }),
        None => None,
    }
}

/// What applying a time change leaves as a time that was `at`: the server's time `now`, the
/// client's time when chrono makes one of it, or `at`.
pub open spec fn changed_time(at: Timestamp, c: TimeChange, now: Timestamp) -> Timestamp {
    match c {
        TimeChange::DontChange => at,
        TimeChange::ServerTime => now,
        TimeChange::ClientTime(t) => match client_time(t) {
            Some(ts) => ts,
            None => at,
        },
    }
}

/// Applies an attribute change to metadata, with `now` as the server's time: the permission
/// bits, owner, group and size that it gives replace those of the metadata; the access-time
/// change sets the access time and the modification-time change sets the modification time;
/// the type bits and the creation time stay.
pub fn apply_set_attr(md: &mut Metadata, s: &SetAttr, now: Timestamp)
    ensures
        type_of(final(md).spec_mode().0) == type_of(old(md).spec_mode().0),
        perms_of(final(md).spec_mode().0) == match s.mode {
            Some(m) => perms_of(m & 0o777),
            None => perms_of(old(md).spec_mode().0),
        },
        final(md).spec_uid() == match s.uid {
            Some(u) => u,
            None => old(md).spec_uid(),
        },
        final(md).spec_gid() == match s.gid {
            Some(g) => g,
            None => old(md).spec_gid(),
        },
        final(md).spec_size() == match s.size {
            Some(z) => z,
            None => old(md).spec_size(),
        },
        final(md).spec_accessed_at() == changed_time(old(md).spec_accessed_at(), s.atime, now),
        final(md).spec_modified_at() == changed_time(old(md).spec_modified_at(), s.mtime, now),
        final(md).spec_created_at() == old(md).spec_created_at(),
{
    if let Some(m) = s.mode {
        let mode = Mode(m & 0o777);
        md.set_permissions(mode.get_permissions());
    }
    if let Some(u) = s.uid {
        md.set_uid(u);
    }
    if let Some(g) = s.gid {
        md.set_gid(g);
    }
    if let Some(z) = s.size {
        md.set_size(z);
    }
    match s.atime {
        TimeChange::DontChange => {},
        TimeChange::ServerTime => md.set_accessed_at(now),
        TimeChange::ClientTime(t) => {
            if let Some(ts) = client_timestamp(t) {
                md.set_accessed_at(ts);
            }
        },
    }
    match s.mtime {
        TimeChange::DontChange => {},
        TimeChange::ServerTime => md.set_modified_at(now),
        TimeChange::ClientTime(t) => {
            if let Some(ts) = client_timestamp(t) {
                md.set_modified_at(ts);
            }
        },
    }
}

/// The times a client sets are the times then served: after a change that sets the access
/// and modification times to client times of whole seconds, the attributes of the metadata
/// carry those times, and the creation time is the one it was.
pub proof fn law_set_times_are_served(md0: Metadata, md1: Metadata, s: SetAttr, now: Timestamp, id: u64, t: ModeType)
    requires
        s.atime matches TimeChange::ClientTime(a) && a.nseconds == 0,
        s.mtime matches TimeChange::ClientTime(m) && m.nseconds == 0,
        md1.spec_accessed_at() == changed_time(md0.spec_accessed_at(), s.atime, now),
        md1.spec_modified_at() == changed_time(md0.spec_modified_at(), s.mtime, now),
        md1.spec_created_at() == md0.spec_created_at(),
    ensures
        s.atime matches TimeChange::ClientTime(a) ==> attr_of(md1, id, t).atime == a,
        s.mtime matches TimeChange::ClientTime(m) ==> attr_of(md1, id, t).mtime == m,
        attr_of(md1, id, t).ctime == attr_of(md0, id, t).ctime,
{
    if let TimeChange::ClientTime(a) = s.atime {
        assert(a.seconds as i64 as u32 == a.seconds);
    }
    if let TimeChange::ClientTime(m) = s.mtime {
        assert(m.seconds as i64 as u32 == m.seconds);
    }
}

/// Applies an attribute change to metadata at the current time of the system clock; what
/// the change does is that of `apply_set_attr`, with the clock's time as the server's time.
pub fn set_attr(md: &mut Metadata, s: &SetAttr)
    ensures
        exists|now: Timestamp| {
            &&& type_of(final(md).spec_mode().0) == type_of(old(md).spec_mode().0)
            &&& perms_of(final(md).spec_mode().0) == match s.mode {
                Some(m) => perms_of(m & 0o777),
                None => perms_of(old(md).spec_mode().0),
            }
            &&& final(md).spec_uid() == match s.uid {
                Some(u) => u,
                None => old(md).spec_uid(),
            }
            &&& final(md).spec_gid() == match s.gid {
                Some(g) => g,
                None => old(md).spec_gid(),
            }
            &&& final(md).spec_size() == match s.size {
                Some(z) => z,
                None => old(md).spec_size(),
            }
            &&& final(md).spec_accessed_at() == #[trigger] changed_time(old(md).spec_accessed_at(), s.atime, now)
            &&& final(md).spec_modified_at() == changed_time(old(md).spec_modified_at(), s.mtime, now)
            &&& final(md).spec_created_at() == old(md).spec_created_at()
        },
{
    let now = now_timestamp();
    apply_set_attr(md, s, now);
}

/// Applies the attributes that a client gives when it creates a file: the permission bits,
/// owner, group and size that it gives replace those of the metadata; the type and the times
/// stay.
pub fn apply_create_attr(md: &mut Metadata, s: &SetAttr)
    ensures
        type_of(final(md).spec_mode().0) == type_of(old(md).spec_mode().0),
        perms_of(final(md).spec_mode().0) == match s.mode {
            Some(m) => perms_of(m & 0o777),
            None => perms_of(old(md).spec_mode().0),
        },
        final(md).spec_uid() == match s.uid {
            Some(u) => u,
            None => old(md).spec_uid(),
        },
        final(md).spec_gid() == match s.gid {
            Some(g) => g,
            None => old(md).spec_gid(),
        },
        final(md).spec_size() == match s.size {
            Some(z) => z,
            None => old(md).spec_size(),
        },
        final(md).spec_accessed_at() == old(md).spec_accessed_at(),
        final(md).spec_modified_at() == old(md).spec_modified_at(),
        final(md).spec_created_at() == old(md).spec_created_at(),
{
    if let Some(m) = s.mode {
        let mode = Mode(m & 0o777);
        md.set_permissions(mode.get_permissions());
    }
    if let Some(u) = s.uid {
        md.set_uid(u);
    }
    if let Some(g) = s.gid {
        md.set_gid(g);
    }
    if let Some(z) = s.size {
        md.set_size(z);
    }
}

/// Applies the attributes of a new symbolic link: its type becomes a symbolic link, and the
/// permission bits, owner and group that the client gives replace those of the metadata; the
/// size and the times stay.
pub fn apply_symlink_attr(md: &mut Metadata, s: &SetAttr)
    ensures
        type_of(final(md).spec_mode().0) == Some(ModeType::Symlink),
        perms_of(final(md).spec_mode().0) == match s.mode {
            Some(m) => perms_of(m & 0o777),
            None => perms_of(old(md).spec_mode().0),
        },
        final(md).spec_uid() == match s.uid {
            Some(u) => u,
            None => old(md).spec_uid(),
        },
        final(md).spec_gid() == match s.gid {
            Some(g) => g,
            None => old(md).spec_gid(),
        },
        final(md).spec_size() == old(md).spec_size(),
        final(md).spec_accessed_at() == old(md).spec_accessed_at(),
        final(md).spec_modified_at() == old(md).spec_modified_at(),
        final(md).spec_created_at() == old(md).spec_created_at(),
{
    md.set_type(ModeType::Symlink);
    if let Some(m) = s.mode {
        let mode = Mode(m & 0o777);
        md.set_permissions(mode.get_permissions());
    }
    if let Some(u) = s.uid {
        md.set_uid(u);
    }
    if let Some(g) = s.gid {
        md.set_gid(g);
    }
}

/// Whether bytes that a client gives as an entry's name are a valid name: UTF-8 text that
/// holds no `/`.
pub open spec fn valid_entry_name(b: Seq<u8>) -> bool {
    vstd::utf8::valid_utf8(b) && !vstd::utf8::decode_utf8(b).contains('/')
}

/// The name of an entry that a client gives, as text; `Inval` when the bytes are not UTF-8
/// or hold a `/`.
pub fn entry_name(name: &[u8]) -> (r: Result<String, NfsStatus>)
    ensures
        r is Ok <==> valid_entry_name(name@),
        r matches Ok(t) ==> t@ == vstd::utf8::decode_utf8(name@),
        r matches Err(e) ==> e == NfsStatus::Inval,
{
    let bytes = crate::store::memstore::copy_bytes(name);
    let text = match crate::nfs::xdr::string_from_utf8(bytes) {
        Ok(t) => t,
        Err(_) => return Err(NfsStatus::Inval),
    };
    assert(text@ == vstd::utf8::decode_utf8(name@));
    let cs = chars_of(text.as_str());
    let mut i: usize = 0;
    while i < cs.len()
        invariant
            cs@ == text@,
            text@ == vstd::utf8::decode_utf8(name@),
            vstd::utf8::valid_utf8(name@),
            i <= cs@.len(),
            forall|k: int| 0 <= k < i ==> cs@[k] != '/',
        decreases cs.len() - i,
    {
        if cs[i] == '/' {
            assert(text@.contains('/')) by {
                assert(text@[i as int] == '/');
            }
            return Err(NfsStatus::Inval);
        }
        i = i + 1;
    }
    assert(!text@.contains('/'));
    Ok(text)
}

/// The target of a symbolic link that a client gives, as text; `Inval` when the bytes are not
/// UTF-8.
pub fn link_target(target: &[u8]) -> (r: Result<String, NfsStatus>)
    ensures
        r is Ok <==> vstd::utf8::valid_utf8(target@),
        r matches Ok(t) ==> t@ == vstd::utf8::decode_utf8(target@),
        r matches Err(e) ==> e == NfsStatus::Inval,
{
    match crate::nfs::xdr::string_from_utf8(crate::store::memstore::copy_bytes(target)) {
        Ok(t) => Ok(t),
        Err(_) => Err(NfsStatus::Inval),
    }
}

/// The path of the entry `name` in the directory whose path is `parent`: the name alone in
/// the root, whose path is empty, and the directory's path, a `/` and the name otherwise.
pub open spec fn child_path_text(parent: Seq<char>, name: Seq<char>) -> Seq<char> {
    if parent.len() == 0 {
        name
    } else {
        parent + seq!['/'] + name
    }
}

/// The path of the entry `name` in the directory whose path is `parent`.
pub fn child_path(parent: &str, name: &str) -> (r: String)
    ensures
        r@ == child_path_text(parent@, name@),
{
    let p = chars_of(parent);
    let n = chars_of(name);
    if p.len() == 0 {
        return copy_str(name);
    }
    let mut out = p;
    out.push('/');
    let ghost before = out@;
    let mut i: usize = 0;
    while i < n.len()
        invariant
            i <= n@.len(),
            out@ == before + n@.take(i as int),
        decreases n.len() - i,
    {
        out.push(n[i]);
        i = i + 1;
        assert(out@ =~= before + n@.take(i as int));
    }
    assert(n@.take(i as int) =~= n@);
    assert(out@ =~= parent@ + seq!['/'] + name@);
    string_of(out.as_slice())
}

/// Whether a read of `n` bytes at `offset` reaches the end of a file of `size` bytes.
pub fn read_at_eof(offset: u64, n: u64, size: u64) -> (r: bool)
    ensures
        r == (offset + n >= size),
{
    if offset >= size {
        true
    } else {
        n >= size - offset
    }
}

/// Whether a write at `offset` into a file of `size` bytes is taken: one that would leave a
/// hole after the end is refused with `Inval`.
pub fn check_write_offset(offset: u64, size: u64) -> (r: Result<(), NfsStatus>)
    ensures
        r is Ok <==> offset <= size,
        r matches Err(e) ==> e == NfsStatus::Inval,
{
    if offset > size {
        Err(NfsStatus::Inval)
    } else {
        Ok(())
    }
}

/// A directory listing under way: the id of the entry that the listing starts after (0 for
/// the start), whether that entry has been passed, how many entries have been taken, and how
/// many may be.
#[derive(Debug, Clone, Copy, PartialEq, Eq, Structural)]
pub struct ReaddirRun {
    /// The id of the entry that the listing starts after.
    pub start_after: u64,
    /// Whether the entries are now being taken.
    pub started: bool,
    /// The number of entries taken.
    pub taken: usize,
    /// The number of entries that may be taken.
    pub max_entries: usize,
}

impl ReaddirRun {
    /// A listing that starts after the entry with id `start_after`, or at the start for 0,
    /// and takes at most `max_entries` entries.
    pub fn new(start_after: u64, max_entries: usize) -> (r: Self)
        ensures
            r.start_after == start_after,
            r.started == (start_after == 0),
            r.taken == 0,
            r.max_entries == max_entries,
    {
        ReaddirRun { start_after, started: start_after == 0, taken: 0, max_entries }
    }

    /// Skips an entry before the start, given the id it is already known by, if any: the
    /// entries after it are taken when that id is the one the listing starts after.
    pub fn passed(&mut self, id: Option<u64>)
        requires
            !old(self).started,
        ensures
            final(self).started == (id == Some(old(self).start_after)),
            final(self).start_after == old(self).start_after,
            final(self).taken == old(self).taken,
            final(self).max_entries == old(self).max_entries,
    {
        self.started = match id {
            Some(i) => i == self.start_after,
            None => false,
        };
    }

    /// Offers an entry after the start: it is taken while there is room, and otherwise the
    /// listing stops there, with more entries to come.
    pub fn offer(&mut self) -> (take: bool)
        requires
            old(self).started,
        ensures
            take == (old(self).taken < old(self).max_entries),
            take ==> *final(self) == (ReaddirRun { taken: (old(self).taken + 1) as usize, ..*old(self) }),
            !take ==> *final(self) == *old(self),
    {
        if self.taken < self.max_entries {
            self.taken = self.taken + 1;
            true
        } else {
            false
        }
    }
}

/// The names of a symbol table, by symbol: the contents of an `intaglio::SymbolTable`.
pub uninterp spec fn interned_names(t: SymbolTable) -> Seq<Seq<char>>;

/// Whether no name occurs twice.
pub open spec fn names_distinct(names: Seq<Seq<char>>) -> bool {
    forall|i: int, j: int| 0 <= i < names.len() && 0 <= j < names.len() && i != j ==> names[i] != names[j]
}

/// Makes an empty symbol table (`SymbolTable::new`).
#[verifier::external_body]
fn new_symbol_table() -> (t: SymbolTable)
    ensures
        interned_names(t) == Seq::<Seq<char>>::empty(),
{
    SymbolTable::new()
}

/// Interns a name (`SymbolTable::intern`), giving its symbol's number. intaglio's source
/// looks the name up first and gives back the symbol it already has; a new name gets the next
/// number and is appended. A table that already holds `u32::MAX + 1` names gives an overflow
/// error for a new one, here `None`, and is left as it was. The table never holds a name
/// twice.
#[verifier::external_body]
fn intern_name(t: &mut SymbolTable, name: String) -> (r: Option<u32>)
    requires
        names_distinct(interned_names(*old(t))),
    ensures
        names_distinct(interned_names(*final(t))),
        match r {
            Some(id) => {
                &&& id < interned_names(*final(t)).len()
                &&& interned_names(*final(t))[id as int] == name@
                &&& interned_names(*old(t)).contains(name@) ==> interned_names(*final(t)) == interned_names(*old(t))
                &&& !interned_names(*old(t)).contains(name@) ==> interned_names(*final(t)) == interned_names(
                    *old(t),
                ).push(name@)
            },
            None => interned_names(*final(t)) == interned_names(*old(t)) && !interned_names(*old(t)).contains(name@),
        },
{
    match t.intern(name) {
        Ok(sym) => Some(sym.id()),
        Err(_) => None,
    }
}

/// The name of a symbol (`SymbolTable::get`): the name with that number, if the table holds
/// one.
#[verifier::external_body]
fn symbol_name(t: &SymbolTable, id: u32) -> (r: Option<String>)
    ensures
        r is Some <==> id < interned_names(*t).len(),
        r matches Some(s) ==> s@ == interned_names(*t)[id as int],
{
    match t.get(Symbol::new(id)) {
        Some(s) => Some(s.to_string()),
        None => None,
    }
}

/// The segments of a path's text, read so far: the segments ended by a `/`, and the
/// segment under way.
pub open spec fn seg_state(s: Seq<char>) -> (Seq<Seq<char>>, Seq<char>)
    decreases s.len(),
{
    if s.len() == 0 {
        (Seq::empty(), Seq::empty())
    } else {
        let (d, c) = seg_state(s.drop_last());
        if s.last() == '/' {
            (if c.len() > 0 { d.push(c) } else { d }, Seq::empty())
        } else {
            (d, c.push(s.last()))
        }
    }
}

/// The non-empty segments of a path's text between `/`s, in order.
pub open spec fn segments(s: Seq<char>) -> Seq<Seq<char>> {
    let (d, c) = seg_state(s);
    if c.len() > 0 { d.push(c) } else { d }
}

/// Splits a path's text at `/`, dropping empty segments.
pub fn split_segments(path: &str) -> (r: Vec<String>)
    ensures
        r.deep_view() == segments(path@),
{
    let cs = chars_of(path);
    let mut done: Vec<String> = Vec::new();
    let mut cur: Vec<char> = Vec::new();
    let mut i: usize = 0;
    while i < cs.len()
        invariant
            cs@ == path@,
            i <= cs@.len(),
            (done.deep_view(), cur@) == seg_state(cs@.take(i as int)),
        decreases cs.len() - i,
    {
        assert(cs@.take(i + 1).drop_last() =~= cs@.take(i as int));
        if cs[i] == '/' {
            if cur.len() > 0 {
                let ghost before = done.deep_view();
                let ghost before_v = done@;
                let s = string_of(cur.as_slice());
                done.push(s);
                proof {
                    assert forall|j: int| 0 <= j < before.len() implies done.deep_view()[j] == before[j] by {
                        assert(done@[j] == before_v[j]);
                    }
                    assert(done.deep_view() =~= before.push(cur@));
                }
            }
            cur = Vec::new();
        } else {
            cur.push(cs[i]);
        }
        i = i + 1;
    }
    assert(cs@.take(i as int) =~= cs@);
    if cur.len() > 0 {
        let ghost before = done.deep_view();
        let ghost before_v = done@;
        let s = string_of(cur.as_slice());
        done.push(s);
        proof {
            assert forall|j: int| 0 <= j < before.len() implies done.deep_view()[j] == before[j] by {
                assert(done@[j] == before_v[j]);
            }
            assert(done.deep_view() =~= before.push(cur@));
        }
    }
    done
}

/// The map between NFS file ids and paths that the server keeps: paths are kept as the
/// symbols of their segments, ids are handed out in order from 1, and id 0 is the root.
pub struct FileIdRegistry {
    filenames: SymbolTable,
    paths: Vec<Vec<u32>>,
}

/// Whether every symbol of the paths names a name of the table.
pub open spec fn symbols_known(paths: Seq<Seq<u32>>, n: nat) -> bool {
    forall|i: int, j: int| 0 <= i < paths.len() && 0 <= j < paths[i].len() ==> paths[i][j] < n
}

/// Whether no path occurs twice.
pub open spec fn paths_distinct(paths: Seq<Seq<u32>>) -> bool {
    forall|i: int, j: int| 0 <= i < paths.len() && 0 <= j < paths.len() && i != j ==> paths[i] != paths[j]
}

/// The names that the symbols stand for.
pub open spec fn names_of_symbols(names: Seq<Seq<char>>, syms: Seq<u32>) -> Seq<Seq<char>> {
    Seq::new(syms.len(), |j: int| names[syms[j] as int])
}

impl FileIdRegistry {
    /// The interned names, by symbol.
    pub closed spec fn names(&self) -> Seq<Seq<char>> {
        interned_names(self.filenames)
    }

    /// The paths, as symbols, by file id.
    pub closed spec fn paths(&self) -> Seq<Seq<u32>> {
        self.paths@.map_values(|p: Vec<u32>| p@)
    }

    /// Whether the registry is well formed: the root holds id 0, no path holds two ids, and
    /// every symbol names a name.
    pub closed spec fn wf(&self) -> bool {
        &&& self.paths().len() >= 1
        &&& self.paths()[0] == Seq::<u32>::empty()
        &&& paths_distinct(self.paths())
        &&& symbols_known(self.paths(), self.names().len())
        &&& names_distinct(self.names())
    }

    /// The text of the path with file id `id`: its segments' names joined by `/`.
    pub open spec fn path_text(&self, id: int) -> Seq<char> {
        join_components(names_of_symbols(self.names(), self.paths()[id]))
    }

    /// A registry that knows only the root, under id 0.
    pub fn new() -> (r: Self)
        ensures
            r.wf(),
            r.paths() == seq![Seq::<u32>::empty()],
            r.names() == Seq::<Seq<char>>::empty(),
    {
        let mut paths: Vec<Vec<u32>> = Vec::new();
        paths.push(Vec::new());
        let r = FileIdRegistry { filenames: new_symbol_table(), paths };
        assert(r.paths() =~= seq![Seq::<u32>::empty()]);
        r
    }

    /// Interns the segments of a path, giving their symbols; a table that cannot take another
    /// name gives `Inval`.
    pub fn path_to_symbols(&mut self, path: &str) -> (r: Result<Vec<u32>, NfsStatus>)
        requires
            old(self).wf(),
        ensures
            final(self).wf(),
            final(self).paths() == old(self).paths(),
            old(self).names().len() <= final(self).names().len(),
            final(self).names().take(old(self).names().len() as int) == old(self).names(),
            r matches Err(s) ==> s == NfsStatus::Inval,
            r matches Ok(v) ==> names_of_symbols(final(self).names(), v@) == segments(path@) && forall|j: int|
                0 <= j < v@.len() ==> v@[j] < final(self).names().len(),
    {
        let segs = split_segments(path);
        let ghost n0 = self.names();
        let mut out: Vec<u32> = Vec::new();
        let mut i: usize = 0;
        while i < segs.len()
            invariant
                self.wf(),
                self.paths() == old(self).paths(),
                n0 == old(self).names(),
                n0.len() <= self.names().len(),
                self.names().take(n0.len() as int) == n0,
                segs.deep_view() == segments(path@),
                i <= segs.len(),
                out@.len() == i,
                forall|j: int| 0 <= j < i ==> #[trigger] out@[j] < self.names().len() && self.names()[out@[j] as int] == segs.deep_view()[j],
            decreases segs.len() - i,
        {
            let ghost before = self.names();
            let ghost out0 = out@;
            let name = copy_str(segs[i].as_str());
            let ghost nv = name@;
            match intern_name(&mut self.filenames, name) {
                Some(id) => {
                    proof {
                        if before.contains(nv) {
                            assert(self.names() == before);
                        } else {
                            assert(self.names() == before.push(nv));
                        }
                        assert(before.len() <= self.names().len());
                        assert forall|k: int| 0 <= k < before.len() implies self.names()[k] == before[k] by {
                            if !before.contains(nv) {
                                assert(before.push(nv)[k] == before[k]);
                            }
                        }
                        assert(self.names().take(n0.len() as int) =~= n0) by {
                            assert forall|k: int| 0 <= k < n0.len() implies self.names()[k] == n0[k] by {
                                assert(before.take(n0.len() as int)[k] == n0[k]);
                            }
                        }
                        assert forall|j: int| 0 <= j < i implies #[trigger] out@[j] < self.names().len() && self.names()[out@[j] as int]
                            == segs.deep_view()[j] by {
                            assert(out0[j] < before.len());
                        }
                        assert(nv == segs.deep_view()[i as int]);
                    }
                    out.push(id);
                },
                None => {
                    return Err(NfsStatus::Inval);
                },
            }
            i = i + 1;
        }
        assert(names_of_symbols(self.names(), out@) =~= segments(path@));
        Ok(out)
    }

    /// The id of the path with the given symbols, if it has one.
    pub fn get_path_registered(&self, syms: &Vec<u32>) -> (r: Option<u64>)
        requires
            self.wf(),
        ensures
            match r {
                Some(id) => id < self.paths().len() && self.paths()[id as int] == syms@,
                None => !self.paths().contains(syms@),
            },
    {
        let mut k: usize = 0;
        while k < self.paths.len()
            invariant
                self.wf(),
                k <= self.paths@.len(),
                forall|j: int| 0 <= j < k ==> self.paths()[j] != syms@,
            decreases self.paths.len() - k,
        {
            if vec_u32_eq(&self.paths[k], syms) {
                return Some(k as u64);
            }
            k = k + 1;
        }
        proof {
            if self.paths().contains(syms@) {
                let j = choose|j: int| 0 <= j < self.paths().len() && self.paths()[j] == syms@;
                assert(self.paths()[j] != syms@);
            }
        }
        None
    }

    /// The id of the path with the given symbols, handing out the next id when it has none.
    pub fn ensure_path_registered(&mut self, syms: &Vec<u32>) -> (r: u64)
        requires
            old(self).wf(),
            forall|j: int| 0 <= j < syms@.len() ==> syms@[j] < old(self).names().len(),
        ensures
            final(self).wf(),
            final(self).names() == old(self).names(),
            old(self).paths().contains(syms@) ==> final(self).paths() == old(self).paths() && old(self).paths()[r as int]
                == syms@,
            !old(self).paths().contains(syms@) ==> final(self).paths() == old(self).paths().push(syms@) && r == old(
                self,
            ).paths().len(),
            r < final(self).paths().len(),
            final(self).paths()[r as int] == syms@,
    {
        if let Some(id) = self.get_path_registered(syms) {
            return id;
        }
        let id = self.paths.len() as u64;
        let ghost before = self.paths();
        let ghost before_v = self.paths@;
        let copy = copy_symbols(syms);
        self.paths.push(copy);
        proof {
            assert forall|j: int| 0 <= j < before.len() implies self.paths()[j] == before[j] by {
                assert(self.paths@[j] == before_v[j]);
            }
            assert(self.paths() =~= before.push(syms@));
        }
        id
    }

    /// The text of the path with the given file id: its names joined by `/`; an unknown id
    /// gives `NoEnt`.
    pub fn fileid_to_path(&self, id: u64) -> (r: Result<String, NfsStatus>)
        requires
            self.wf(),
        ensures
            id < self.paths().len() ==> (r matches Ok(s) && s@ == self.path_text(id as int)),
            id >= self.paths().len() ==> r == Result::<String, NfsStatus>::Err(NfsStatus::NoEnt),
    {
        if id >= self.paths.len() as u64 {
            return Err(NfsStatus::NoEnt);
        }
        let syms = &self.paths[id as usize];
        let ghost sv = self.paths()[id as int];
        assert(syms@ == sv);
        let mut names: Vec<String> = Vec::new();
        let mut j: usize = 0;
        while j < syms.len()
            invariant
                self.wf(),
                syms@ == sv,
                sv == self.paths()[id as int],
                id < self.paths().len(),
                j <= syms@.len(),
                names.deep_view() == names_of_symbols(self.names(), sv).take(j as int),
            decreases syms.len() - j,
        {
            let ghost before = names.deep_view();
            let ghost before_v = names@;
            assert(self.paths()[id as int][j as int] < self.names().len());
            match symbol_name(&self.filenames, syms[j]) {
                Some(n) => {
                    assert(n@ == names_of_symbols(self.names(), sv)[j as int]);
                    let ghost nv = n@;
                    names.push(n);
                    proof {
                        assert(before =~= names_of_symbols(self.names(), sv).take(j as int));
                        assert forall|k: int| 0 <= k < before.len() implies names.deep_view()[k] == before[k] by {
                            assert(names@[k] == before_v[k]);
                        }
                        assert(names.deep_view() =~= before.push(nv));
                        assert(before.push(nv) =~= names_of_symbols(self.names(), sv).take(j + 1));
                    }
                },
                None => return Err(NfsStatus::Stale),
            }
            j = j + 1;
        }
        assert(names_of_symbols(self.names(), sv).take(j as int) =~= names_of_symbols(self.names(), sv));
        Ok(join_prefix(&names, names.len()))
    }

    /// The id of a path given by its text, if it has one; its segments are interned on the
    /// way.
    pub fn get_path_registered_str(&mut self, path: &str) -> (r: Result<Option<u64>, NfsStatus>)
        requires
            old(self).wf(),
        ensures
            final(self).wf(),
            final(self).paths() == old(self).paths(),
            r matches Err(s) ==> s == NfsStatus::Inval,
            r matches Ok(Some(id)) ==> id < final(self).paths().len() && names_of_symbols(
                final(self).names(),
                final(self).paths()[id as int],
            ) == segments(path@),
            r matches Ok(None) ==> forall|id: int|
                0 <= id < final(self).paths().len() ==> names_of_symbols(final(self).names(), #[trigger] final(self).paths()[id])
                    != segments(path@),
    {
        let syms = self.path_to_symbols(path)?;
        let r = self.get_path_registered(&syms);
        proof {
            if r is None {
                assert forall|id: int| 0 <= id < self.paths().len() implies names_of_symbols(
                    self.names(),
                    #[trigger] self.paths()[id],
                ) != segments(path@) by {
                    if names_of_symbols(self.names(), self.paths()[id]) == segments(path@) {
                        lemma_symbols_injective(self.names(), self.paths()[id], syms@);
                        assert(self.paths().contains(syms@));
                    }
                }
            }
        }
        Ok(r)
    }

    /// The id of a path given by its text, handing out the next id when it has none.
    pub fn ensure_path_registered_str(&mut self, path: &str) -> (r: Result<u64, NfsStatus>)
        requires
            old(self).wf(),
        ensures
            final(self).wf(),
            old(self).paths().len() <= final(self).paths().len(),
            final(self).paths().take(old(self).paths().len() as int) == old(self).paths(),
            r matches Err(s) ==> s == NfsStatus::Inval,
            r matches Ok(id) ==> id < final(self).paths().len() && names_of_symbols(
                final(self).names(),
                final(self).paths()[id as int],
            ) == segments(path@),
    {
        let syms = self.path_to_symbols(path)?;
        let id = self.ensure_path_registered(&syms);
        assert(self.paths().take(old(self).paths().len() as int) =~= old(self).paths());
        Ok(id)
    }
}

/// Distinct names make the names of symbols tell the symbols apart.
proof fn lemma_symbols_injective(names: Seq<Seq<char>>, a: Seq<u32>, b: Seq<u32>)
    requires
        names_distinct(names),
        forall|j: int| 0 <= j < a.len() ==> a[j] < names.len(),
        forall|j: int| 0 <= j < b.len() ==> b[j] < names.len(),
        names_of_symbols(names, a) == names_of_symbols(names, b),
    ensures
        a == b,
{
    assert(a.len() == names_of_symbols(names, a).len());
    assert forall|j: int| 0 <= j < a.len() implies a[j] == b[j] by {
        assert(names_of_symbols(names, a)[j] == names[a[j] as int]);
        assert(names_of_symbols(names, b)[j] == names[b[j] as int]);
    }
    assert(a =~= b);
}

/// Whether two symbol lists are equal.
fn vec_u32_eq(a: &Vec<u32>, b: &Vec<u32>) -> (r: bool)
    ensures
        r == (a@ == b@),
{
    if a.len() != b.len() {
        return false;
    }
    let mut i: usize = 0;
    while i < a.len()
        invariant
            a@.len() == b@.len(),
            i <= a@.len(),
            forall|j: int| 0 <= j < i ==> a@[j] == b@[j],
        decreases a.len() - i,
    {
        if a[i] != b[i] {
            return false;
        }
        i = i + 1;
    }
    assert(a@ =~= b@);
    true
}

/// Copies a symbol list.
fn copy_symbols(a: &Vec<u32>) -> (r: Vec<u32>)
    ensures
        r@ == a@,
{
    let mut r: Vec<u32> = Vec::new();
    let mut i: usize = 0;
    while i < a.len()
        invariant
            i <= a@.len(),
            r@ == a@.take(i as int),
        decreases a.len() - i,
    {
        r.push(a[i]);
        i = i + 1;
        assert(r@ =~= a@.take(i as int));
    }
    assert(a@.take(i as int) =~= a@);
    r
}

/// A path registered from its text reads back as its non-empty segments joined by `/`: the
/// server's map from file ids to paths gives back what it was handed, without empty segments.
pub proof fn law_registered_path_reads_back(reg: FileIdRegistry, path: Seq<char>, id: int)
    requires
        reg.wf(),
        0 <= id < reg.paths().len(),
        names_of_symbols(reg.names(), reg.paths()[id]) == segments(path),
    ensures
        reg.path_text(id) == join_components(segments(path)),
{
}

/// A path holds one id: registering it again gives the id it has.
pub proof fn law_one_id_per_path(reg: FileIdRegistry, syms: Seq<u32>, a: int, b: int)
    requires
        reg.wf(),
        0 <= a < reg.paths().len(),
        0 <= b < reg.paths().len(),
        reg.paths()[a] == syms,
        reg.paths()[b] == syms,
    ensures
        a == b,
{
}

} // verus!
