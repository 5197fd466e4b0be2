//! Splitting file system paths into their parent and last name.

use vstd::prelude::*;
use typed_path::Utf8UnixPath;
use crate::text::copy_str;
use crate::vfs::segment::{is_valid_segment, PathSegment};
use crate::vfs::path::component_texts;
use crate::utils::path::unix_comp_of;

verus! {

/// The default suffix of the directory where the actual filesystem data is stored.
pub const MFS_DIR_SUFFIX: &'static str = "mfs";

/// The directory where project logs are stored.
pub const LOG_SUBDIR: &'static str = "log";

/// The directory where the filesystem's blocks are stored.
pub const BLOCKS_SUBDIR: &'static str = "blocks";

/// The filename of the database that stores the filesystem's metadata.
pub const FS_DB_FILENAME: &'static str = "fs.db";

/// The name of the symlink that links to the actual filesystem data.
pub const MFS_LINK_FILENAME: &'static str = ".mfs_link";

/// The prefix for mfsrun log files.
pub const MFSRUN_LOG_PREFIX: &'static str = "mfsrun";

/// An error of the file system's path handling.
#[derive(Debug)]
pub enum FsError {
    /// The path starts at the root.
    PathHasRoot(String),
    /// The path is empty.
    PathIsEmpty,
    /// The path has no valid last name.
    InvalidPathComponent(String),
    /// The mfsrun binary is not where it was looked for.
    MfsrunBinaryNotFound {
        /// The path looked at.
        path: String,
        /// Where the path came from.
        src: String,
    },
}

/// The result of the file system's path handling.
pub type FsResult<T> = Result<T, FsError>;

/// Whether a Unix path starts at the root: it begins with `/`.
pub open spec fn unix_path_has_root(path: Seq<char>) -> bool {
    path.len() > 0 && path[0] == '/'
}

/// The last name of a Unix path, if any (`Utf8UnixPath::file_name`): typed-path gives the last
/// component when it is a name, and nothing when the path is empty or ends in the root, `..`
/// or a leading `.`.
pub open spec fn typed_path_file_name(path: Seq<char>) -> Option<Seq<char>> {
    let ct = component_texts(path);
    if ct.len() > 0 && unix_comp_of(ct.last()) is Normal {
        Some(ct.last())
    } else {
        None
    }
}

/// The parent of a Unix path, if any (`Utf8UnixPath::parent`).
pub uninterp spec fn typed_path_parent(path: Seq<char>) -> Option<Seq<char>>;

/// Whether the Unix path starts at the root (`Utf8UnixPath::has_root`): typed-path's parser
/// reads a root directory as the first component exactly when the path begins with `/`.
#[verifier::external_body]
fn unix_has_root(path: &str) -> (r: bool)
    ensures
        r == unix_path_has_root(path@),
{
    Utf8UnixPath::new(path).has_root()
}

/// The last name of the Unix path (`Utf8UnixPath::file_name`, which takes the last component
/// and gives it when it is a name); the result is `typed_path_file_name` of the path.
#[verifier::external_body]
fn unix_file_name(path: &str) -> (r: Option<String>)
    ensures
        r matches Some(s) ==> typed_path_file_name(path@) == Some(s@),
        r is None ==> typed_path_file_name(path@) is None,
{
    Utf8UnixPath::new(path).file_name().map(|s| s.to_string())
}

/// The parent of the Unix path (`Utf8UnixPath::parent`); the result is `typed_path_parent`
/// of the path.
#[verifier::external_body]
fn unix_parent(path: &str) -> (r: Option<String>)
    ensures
        r matches Some(s) ==> typed_path_parent(path@) == Some(s@),
        r is None ==> typed_path_parent(path@) is None,
{
    Utf8UnixPath::new(path).parent().map(|p| p.as_str().to_string())
}

/// The outcome of splitting a path, given what `typed_path` says of it: a path at the root
/// and the empty path are refused, a path without a valid last name fails, and the parent is
/// given unless it is empty.
pub open spec fn split_outcome(
    path: Seq<char>,
    has_root: bool,
    name: Option<Seq<char>>,
    parent: Option<Seq<char>>,
    r: FsResult<(Option<String>, PathSegment)>,
) -> bool {
    if has_root {
        r matches Err(FsError::PathHasRoot(p)) && p@ == path
    } else if path.len() == 0 {
        r matches Err(FsError::PathIsEmpty)
    } else {
        match name {
            None => r matches Err(FsError::InvalidPathComponent(p)) && p@ == path,
            Some(n) => if !is_valid_segment(n) {
                r matches Err(FsError::InvalidPathComponent(p)) && p@ == path
            } else {
                r matches Ok((par, seg)) && seg@ == n && match parent {
                    Some(p) => if p.len() > 0 {
                        par matches Some(q) && q@ == p
                    } else {
                        par is None
                    },
                    None => par is None,
                }
            },
        }
    }
}

/// Splits the last name from a relative path, given what `typed_path` says of the path.
pub fn split_last_from(path: &str, has_root: bool, name: Option<String>, parent: Option<String>) -> (r: FsResult<(Option<String>, PathSegment)>)
    ensures
        split_outcome(
            path@,
            has_root,
            match name { Some(n) => Some(n@), None => None },
            match parent { Some(p) => Some(p@), None => None },
            r,
        ),
{
    if has_root {
        return Err(FsError::PathHasRoot(copy_str(path)));
    }
    if path.is_empty() {
        return Err(FsError::PathIsEmpty);
    }
    let n = match name {
        Some(n) => n,
        None => return Err(FsError::InvalidPathComponent(copy_str(path))),
    };
    let seg = match PathSegment::try_from_str(n.as_str()) {
        Ok(s) => s,
        Err(_) => return Err(FsError::InvalidPathComponent(copy_str(path))),
    };
    let par = match parent {
        Some(p) => if p.as_str().is_empty() {
            None
        } else {
            Some(p)
        },
        None => None,
    };
    Ok((par, seg))
}

/// Splits the last name from a relative path: paths at the root and the empty path are
/// refused; the parent is `None` when it is empty.
pub fn split_last(path: &str) -> (r: FsResult<(Option<String>, PathSegment)>)
    ensures
        split_outcome(path@, unix_path_has_root(path@), typed_path_file_name(path@), typed_path_parent(path@), r),
{
    let has_root = unix_has_root(path);
    let name = unix_file_name(path);
    let parent = unix_parent(path);
    split_last_from(path, has_root, name, parent)
}

/// Where the mfsrun binary is looked for, and where that path came from: the path that the
/// environment variable gives when it is set, the default path otherwise.
pub fn mfsrun_bin_candidate(env_path: Option<String>, default_path: &str) -> (r: (String, String))
    ensures
        match env_path {
            Some(p) => r.0@ == p@ && r.1@ == "environment variable"@,
            None => r.0@ == default_path@ && r.1@ == "default path"@,
        },
{
    match env_path {
        Some(p) => (p, String::from_str("environment variable")),
        None => (copy_str(default_path), String::from_str("default path")),
    }
}

/// The path of the mfsrun binary, once it is known whether a file is there: the path itself,
/// or `MfsrunBinaryNotFound` with the path and where it came from.
pub fn check_mfsrun_bin(path: String, source: String, exists: bool) -> (r: FsResult<String>)
    ensures
        exists ==> (r matches Ok(p) && p@ == path@),
        !exists ==> (r matches Err(FsError::MfsrunBinaryNotFound { path: p, src: s }) && p@ == path@ && s@ == source@),
{
    if exists {
        Ok(path)
    } else {
        Err(FsError::MfsrunBinaryNotFound { path, src: source })
    }
}

} // verus!
