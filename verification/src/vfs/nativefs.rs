//! The mapping of virtual paths onto a directory of the host file system.

use vstd::prelude::*;
use crate::text::{chars_of, copy_str};
use crate::vfs::error::{VfsError, VfsResult};
use crate::vfs::metadata::{perms_of, type_of, Metadata, Mode, ModeType};
use crate::vfs::segment::{is_valid_segment, PathSegment};

verus! {

/// A virtual file system backed by a directory of the host file system.
#[derive(Debug)]
pub struct NativeFileSystem {
    root_path: String,
}

impl NativeFileSystem {
    /// The directory that holds the file system.
    pub closed spec fn spec_root(&self) -> Seq<char> {
        self.root_path@
    }

    /// Creates a file system rooted at the given directory.
    pub fn new(root_path: String) -> (fs: Self)
        ensures
            fs.spec_root() == root_path@,
    {
        NativeFileSystem { root_path }
    }

    /// Returns the directory that holds the file system.
    pub fn get_root_path(&self) -> (r: &String)
        ensures
            r@ == self.spec_root(),
    {
        &self.root_path
    }

    /// The host path of a virtual path, which always lies under the root: the root for the
    /// empty path, and the path below the root otherwise. A path that would leave the root is
    /// refused with `InvalidPathComponent`: an absolute path with `/`, and a path with a `..`
    /// part with `..`.
    pub fn to_native_path(&self, path: &str) -> (r: VfsResult<String>)
        ensures
            starts_at_root(path@) ==> (r matches Err(VfsError::InvalidPathComponent(c)) && c@ == seq!['/']),
            !starts_at_root(path@) && has_parent_part(path@) ==> (r matches Err(VfsError::InvalidPathComponent(c))
                && c@ == seq!['.', '.']),
            !leaves_root(path@) ==> (r matches Ok(s) && s@ == native_path_of(self.spec_root(), path@)),
            r matches Ok(s) ==> self.spec_root().is_prefix_of(s@),
    {
        proof {
            reveal_strlit("/");
            reveal_strlit("..");
        }
        let cs = chars_of(path);
        if cs.len() > 0 && cs[0] == '/' {
            return Err(VfsError::InvalidPathComponent(String::from_str("/")));
        }
        let mut i: usize = 0;
        while i < cs.len()
            invariant
                cs@ == path@,
                !starts_at_root(path@),
                i <= cs@.len(),
                forall|k: int| 0 <= k < i ==> !#[trigger] parent_part_at(path@, k),
            decreases cs.len() - i,
        {
            if cs.len() - i >= 2 && cs[i] == '.' && cs[i + 1] == '.' && (i == 0 || cs[i - 1] == '/') && (cs.len()
                - i == 2 || cs[i + 2] == '/') {
                assert(parent_part_at(path@, i as int));
                proof {
                    reveal_strlit("..");
                }
                return Err(VfsError::InvalidPathComponent(String::from_str("..")));
            }
            i = i + 1;
        }
        let mut out = String::from_str(self.root_path.as_str());
        if cs.len() > 0 {
            let rs = chars_of(self.root_path.as_str());
            if !(rs.len() > 0 && rs[rs.len() - 1] == '/') {
                out.append("/");
            }
            out.append(path);
        }
        proof {
            let root = self.spec_root();
            assert(root.is_prefix_of(out@)) by {
                assert(out@.subrange(0, root.len() as int) =~= root);
            }
        }
        Ok(out)
    }
}

/// Whether the `/`-separated part of the path that starts at `i` is `..`.
pub open spec fn parent_part_at(path: Seq<char>, i: int) -> bool {
    &&& 0 <= i && i + 2 <= path.len()
    &&& path[i] == '.' && path[i + 1] == '.'
    &&& (i == 0 || path[i - 1] == '/')
    &&& (i + 2 == path.len() || path[i + 2] == '/')
}

/// Whether the path starts at the root: it begins with `/`.
pub open spec fn starts_at_root(path: Seq<char>) -> bool {
    path.len() > 0 && path[0] == '/'
}

/// Whether one of the `/`-separated parts of the path is `..`.
pub open spec fn has_parent_part(path: Seq<char>) -> bool {
    exists|i: int| #[trigger] parent_part_at(path, i)
}

/// Whether the path would lead out of the directory it is taken from: it is absolute, or
/// one of its parts is `..`.
pub open spec fn leaves_root(path: Seq<char>) -> bool {
    starts_at_root(path) || has_parent_part(path)
}

/// The host path of a virtual path that stays under the root: the root itself for the empty
/// path, and otherwise the root, a `/` unless the root ends with one, and the path.
pub open spec fn native_path_of(root: Seq<char>, path: Seq<char>) -> Seq<char> {
    if path.len() == 0 {
        root
    } else if root.len() > 0 && root.last() == '/' {
        root + path
    } else {
        root + seq!['/'] + path
    }
}

/// The parent that `std::path::Path::parent` gives of a path, as text, if any.
pub uninterp spec fn std_parent_of(path: Seq<char>) -> Option<Seq<char>>;

/// The parent of a path (`std::path::Path::parent`, read back as text); the result is
/// `std_parent_of` of the path.
#[verifier::external_body]
fn path_parent(path: &str) -> (r: Option<String>)
    ensures
        r is Some <==> std_parent_of(path@) is Some,
        r matches Some(p) ==> std_parent_of(path@) == Some(p@),
{
    std::path::Path::new(path).parent().map(|p| p.to_string_lossy().into_owned())
}

/// What `std::path::Path::strip_prefix` leaves of a path once a base is taken off its front,
/// as text, if the base is a prefix of it.
pub uninterp spec fn std_stripped(path: Seq<char>, base: Seq<char>) -> Option<Seq<char>>;

/// Takes a base off the front of a path (`std::path::Path::strip_prefix`, read back as
/// text); the result is `std_stripped` of the two.
#[verifier::external_body]
fn path_strip_prefix(path: &str, base: &str) -> (r: Option<String>)
    ensures
        r is Some <==> std_stripped(path@, base@) is Some,
        r matches Some(p) ==> std_stripped(path@, base@) == Some(p@),
{
    match std::path::Path::new(path).strip_prefix(base) {
        Ok(p) => Some(p.to_string_lossy().into_owned()),
        Err(_) => None,
    }
}

/// The parent of a host path, if it has one.
pub fn native_parent(native: &str) -> (r: Option<String>)
    ensures
        r is Some <==> std_parent_of(native@) is Some,
        r matches Some(p) ==> std_parent_of(native@) == Some(p@),
{
    path_parent(native)
}

/// What the host file system tells of an entry (`std::fs::Metadata` from
/// `symlink_metadata`): whether it is a directory, a regular file or a symbolic link, its
/// length, and its mode bits.
#[derive(Debug, Clone, Copy, PartialEq, Eq, Structural)]
pub struct HostEntry {
    /// Whether the entry is a directory.
    pub is_dir: bool,
    /// Whether the entry is a regular file.
    pub is_file: bool,
    /// Whether the entry is a symbolic link.
    pub is_symlink: bool,
    /// The entry's length in bytes.
    pub len: u64,
    /// The entry's mode bits.
    pub mode: u32,
}

/// What looking a host path up gave: an entry, no entry, or another error.
#[derive(Debug)]
pub enum Probe {
    /// The path names this entry.
    Found(HostEntry),
    /// Nothing is at the path.
    Missing,
    /// The lookup failed otherwise.
    Failed(std::io::Error),
}

/// Whether a path names an entry; a failed lookup is an `Io` error.
pub fn probe_exists(p: Probe) -> (r: VfsResult<bool>)
    ensures
        p is Found ==> r matches Ok(true),
        p is Missing ==> r matches Ok(false),
        p is Failed ==> r matches Err(VfsError::Io(_)),
{
    match p {
        Probe::Found(_) => Ok(true),
        Probe::Missing => Ok(false),
        Probe::Failed(e) => Err(VfsError::Io(e)),
    }
}

/// The entry at a host path that must be there: `NotFound` with the host path when nothing
/// is, and an `Io` error when the lookup failed.
pub fn checked_entry(native: &str, p: Probe) -> (r: VfsResult<HostEntry>)
    ensures
        p matches Probe::Found(e) ==> r == VfsResult::<HostEntry>::Ok(e),
        p is Missing ==> (r matches Err(VfsError::NotFound(n)) && n@ == native@),
        p is Failed ==> r matches Err(VfsError::Io(_)),
{
    match p {
        Probe::Found(e) => Ok(e),
        Probe::Missing => Err(VfsError::NotFound(copy_str(native))),
        Probe::Failed(e) => Err(VfsError::Io(e)),
    }
}

/// Checks the parent of a new entry, given its host path and what looking it up gave, when
/// the path has a parent: a missing parent is `ParentDirectoryNotFound` with the parent's
/// path, and a failed lookup an `Io` error.
pub fn check_parent(parent: Option<(String, Probe)>) -> (r: VfsResult<()>)
    ensures
        parent is None ==> r is Ok,
        parent matches Some((q, p)) ==> {
            &&& p is Found ==> r is Ok
            &&& p is Missing ==> (r matches Err(VfsError::ParentDirectoryNotFound(n)) && n@ == q@)
            &&& p is Failed ==> r matches Err(VfsError::Io(_))
        },
{
    match parent {
        None => Ok(()),
        Some((q, p)) => match p {
            Probe::Found(_) => Ok(()),
            Probe::Missing => Err(VfsError::ParentDirectoryNotFound(q)),
            Probe::Failed(e) => Err(VfsError::Io(e)),
        },
    }
}

/// Checks that a new entry may be made at `path`, given what looking its host path up gave:
/// an entry already there is `AlreadyExists` unless `exists_ok`, and a failed lookup an
/// `Io` error.
pub fn check_new_entry(path: &str, p: Probe, exists_ok: bool) -> (r: VfsResult<()>)
    ensures
        p is Found && !exists_ok ==> (r matches Err(VfsError::AlreadyExists(n)) && n@ == path@),
        p is Found && exists_ok ==> r is Ok,
        p is Missing ==> r is Ok,
        p is Failed ==> r matches Err(VfsError::Io(_)),
{
    match p {
        Probe::Found(_) => if exists_ok {
            Ok(())
        } else {
            Err(VfsError::AlreadyExists(copy_str(path)))
        },
        Probe::Missing => Ok(()),
        Probe::Failed(e) => Err(VfsError::Io(e)),
    }
}

/// The kinds of entry an operation needs.
#[derive(Debug, Clone, Copy, PartialEq, Eq, Structural)]
pub enum Wanted {
    /// A regular file.
    File,
    /// A directory.
    Dir,
    /// A symbolic link.
    Symlink,
}

/// The entry at `path` (host path `native`) that an operation needs to be of a kind:
/// `NotFound` with the host path when nothing is there, an `Io` error when the lookup failed,
/// and `NotAFile`, `NotADirectory` or `NotASymlink` with `path` when the entry is of another
/// kind.
pub fn checked_kind(path: &str, native: &str, p: Probe, want: Wanted) -> (r: VfsResult<HostEntry>)
    ensures
        p is Missing ==> (r matches Err(VfsError::NotFound(n)) && n@ == native@),
        p is Failed ==> r matches Err(VfsError::Io(_)),
        p matches Probe::Found(e) ==> match want {
            Wanted::File => if e.is_file {
                r == VfsResult::<HostEntry>::Ok(e)
            } else {
                r matches Err(VfsError::NotAFile(n)) && n@ == path@
            },
            Wanted::Dir => if e.is_dir {
                r == VfsResult::<HostEntry>::Ok(e)
            } else {
                r matches Err(VfsError::NotADirectory(n)) && n@ == path@
            },
            Wanted::Symlink => if e.is_symlink {
                r == VfsResult::<HostEntry>::Ok(e)
            } else {
                r matches Err(VfsError::NotASymlink(n)) && n@ == path@
            },
        },
{
    let e = checked_entry(native, p)?;
    match want {
        Wanted::File => if e.is_file {
            Ok(e)
        } else {
            Err(VfsError::NotAFile(copy_str(path)))
        },
        Wanted::Dir => if e.is_dir {
            Ok(e)
        } else {
            Err(VfsError::NotADirectory(copy_str(path)))
        },
        Wanted::Symlink => if e.is_symlink {
            Ok(e)
        } else {
            Err(VfsError::NotASymlink(copy_str(path)))
        },
    }
}

/// The type of a host entry: a directory, a file, a symbolic link, and a file for anything
/// else.
pub open spec fn host_type(e: HostEntry) -> ModeType {
    if e.is_dir {
        ModeType::Directory
    } else if e.is_file {
        ModeType::File
    } else if e.is_symlink {
        ModeType::Symlink
    } else {
        ModeType::File
    }
}

/// The metadata of a host entry: new metadata of its type, with its length as the size and
/// the permission bits of its mode.
pub fn host_metadata(e: HostEntry) -> (m: Metadata)
    ensures
        type_of(m.spec_mode().0) == Some(host_type(e)),
        perms_of(m.spec_mode().0) == perms_of(e.mode),
        m.spec_size() == e.len as nat,
        m.spec_created_at() == m.spec_modified_at(),
        m.spec_modified_at() == m.spec_accessed_at(),
{
    let t = if e.is_dir {
        ModeType::Directory
    } else if e.is_file {
        ModeType::File
    } else if e.is_symlink {
        ModeType::Symlink
    } else {
        ModeType::File
    };
    let mut m = Metadata::new(t);
    m.set_size(e.len);
    m.set_permissions(Mode(e.mode).get_permissions());
    m
}

/// The permission bits that the host is given for metadata: the lower nine bits of its mode.
pub fn host_mode_bits(md: &Metadata) -> (r: u32)
    ensures
        r == md.spec_mode().0 & 0o777,
{
    md.get_mode().0 & 0o777
}

/// How an entry is removed.
#[derive(Debug, Clone, Copy, PartialEq, Eq, Structural)]
pub enum RemoveStep {
    /// As a directory, once it is seen to be empty.
    Dir,
    /// As a file.
    File,
}

/// How the entry at a host path is removed: `NotFound` with the host path when nothing is
/// there, an `Io` error when the lookup failed, a directory as a directory and anything else
/// as a file.
pub fn remove_step(native: &str, p: Probe) -> (r: VfsResult<RemoveStep>)
    ensures
        p is Missing ==> (r matches Err(VfsError::NotFound(n)) && n@ == native@),
        p is Failed ==> r matches Err(VfsError::Io(_)),
        p matches Probe::Found(e) ==> r == VfsResult::<RemoveStep>::Ok(
            if e.is_dir { RemoveStep::Dir } else { RemoveStep::File },
        ),
{
    let e = checked_entry(native, p)?;
    if e.is_dir {
        Ok(RemoveStep::Dir)
    } else {
        Ok(RemoveStep::File)
    }
}

/// Checks that a directory to remove is empty: one with an entry is `NotEmpty`.
pub fn check_dir_empty(path: &str, has_entry: bool) -> (r: VfsResult<()>)
    ensures
        has_entry ==> (r matches Err(VfsError::NotEmpty(n)) && n@ == path@),
        !has_entry ==> r is Ok,
{
    if has_entry {
        Err(VfsError::NotEmpty(copy_str(path)))
    } else {
        Ok(())
    }
}

/// Checks a rename, given what looking the two host paths up gave: the source must be there
/// (`NotFound` with its host path otherwise), and the destination must not (`AlreadyExists`
/// with `new_path`); a failed lookup is an `Io` error.
pub fn check_rename(old_native: &str, old: Probe, new_path: &str, new: Probe) -> (r: VfsResult<()>)
    ensures
        old is Missing ==> (r matches Err(VfsError::NotFound(n)) && n@ == old_native@),
        old is Failed ==> r matches Err(VfsError::Io(_)),
        old is Found && new is Found ==> (r matches Err(VfsError::AlreadyExists(n)) && n@ == new_path@),
        old is Found && new is Failed ==> r matches Err(VfsError::Io(_)),
        old is Found && new is Missing ==> r is Ok,
{
    checked_entry(old_native, old)?;
    match new {
        Probe::Found(_) => Err(VfsError::AlreadyExists(copy_str(new_path))),
        Probe::Missing => Ok(()),
        Probe::Failed(e) => Err(VfsError::Io(e)),
    }
}

/// The target of a symbolic link as the file system reports it: an absolute target inside
/// the root is given relative to the root, and any other target as it is.
pub open spec fn reported_target(root: Seq<char>, target: Seq<char>) -> Seq<char> {
    if target.len() > 0 && target[0] == '/' {
        match std_stripped(target, root) {
            Some(rel) => rel,
            None => target,
        }
    } else {
        target
    }
}

impl NativeFileSystem {
    /// The target of a symbolic link as the file system reports it.
    pub fn report_target(&self, target: &str) -> (r: String)
        ensures
            r@ == reported_target(self.spec_root(), target@),
    {
        let cs = chars_of(target);
        if cs.len() > 0 && cs[0] == '/' {
            match path_strip_prefix(target, self.root_path.as_str()) {
                Some(rel) => rel,
                None => copy_str(target),
            }
        } else {
            copy_str(target)
        }
    }
}

/// The names of a host directory's entries that the file system lists: those that are text
/// and valid path segments, in order.
pub open spec fn listed_names(names: Seq<Option<Seq<char>>>) -> Seq<Seq<char>>
    decreases names.len(),
{
    if names.len() == 0 {
        Seq::empty()
    } else {
        let rest = listed_names(names.drop_last());
        match names.last() {
            Some(n) => if is_valid_segment(n) {
                rest.push(n)
            } else {
                rest
            },
            None => rest,
        }
    }
}

/// The segments of a host directory's entries, given their names (`None` for a name that is
/// not text): names that are not valid segments are left out.
pub fn listing_segments(names: Vec<Option<String>>) -> (r: Vec<PathSegment>)
    ensures
        r@.map_values(|s: PathSegment| s@) == listed_names(names@.map_values(|n: Option<String>| match n {
            Some(t) => Some(t@),
            None => None,
        })),
{
    let ghost views = names@.map_values(|n: Option<String>| match n {
        Some(t) => Some(t@),
        None => None,
    });
    let mut out: Vec<PathSegment> = Vec::new();
    let mut i: usize = 0;
    while i < names.len()
        invariant
            i <= names@.len(),
            views == names@.map_values(|n: Option<String>| match n {
                Some(t) => Some(t@),
                None => None,
            }),
            out@.map_values(|s: PathSegment| s@) == listed_names(views.take(i as int)),
        decreases names.len() - i,
    {
        assert(views.take(i + 1).drop_last() =~= views.take(i as int));
        match &names[i] {
            Some(t) => {
                match PathSegment::try_from_str(t.as_str()) {
                    Ok(seg) => {
                        out.push(seg);
                    },
                    Err(_) => {},
                }
            },
            None => {},
        }
        i = i + 1;
        assert(out@.map_values(|s: PathSegment| s@) =~= listed_names(views.take(i as int)));
    }
    assert(views.take(i as int) =~= views);
    out
}

} // verus!
