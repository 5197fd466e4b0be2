use vstd::prelude::*;

verus! {

#[verifier::external_type_specification]
#[verifier::external_body]
pub struct ExAnyhowError(anyhow::Error);

#[verifier::external_type_specification]
#[verifier::external_body]
pub struct ExIoError(std::io::Error);

/// An error that can represent any error.
#[derive(Debug)]
pub struct AnyError {
    /// The wrapped error.
    pub error: anyhow::Error,
}

/// An error that occurred during a file system operation. Paths are held as strings.
#[derive(Debug)]
pub enum VfsError {
    /// The parent directory does not exist
    ParentDirectoryNotFound(String),
    /// The path already exists
    AlreadyExists(String),
    /// The path does not exist
    NotFound(String),
    /// The path is not a directory
    NotADirectory(String),
    /// The path is not a file
    NotAFile(String),
    /// The path is not a symlink
    NotASymlink(String),
    /// The directory is not empty
    NotEmpty(String),
    /// Invalid offset for read/write operation
    InvalidOffset {
        /// The path of the file
        path: String,
        /// The offset that is invalid
        offset: u64,
    },
    /// Insufficient permissions to perform the operation
    PermissionDenied(String),
    /// The filesystem is read-only
    ReadOnlyFilesystem,
    /// Invalid symlink target
    InvalidSymlinkTarget(String),
    /// Empty path segment
    EmptyPathSegment,
    /// Invalid path component (e.g. ".", "..", "/")
    InvalidPathComponent(String),
    /// IO error during filesystem operation
    Io(std::io::Error),
    /// Overlay filesystem requires at least one layer
    OverlayFileSystemRequiresAtLeastOneLayer,
    /// Custom error.
    Custom(AnyError),
}

/// The result of a file system operation.
pub type VfsResult<T> = Result<T, VfsError>;

impl VfsError {
    /// Wraps any error as a custom file system error.
    pub fn custom(error: anyhow::Error) -> (e: VfsError)
        ensures
            e == VfsError::Custom(AnyError { error }),
    {
        VfsError::Custom(AnyError { error })
    }
}

impl AnyError {
    /// Downcasts the wrapped error to a `T` (`anyhow::Error::downcast_ref`): the result is the
    /// wrapped error when it is a `T`, and `None` otherwise. Nothing more is claimed of it.
    #[verifier::external_body]
    pub fn downcast<T>(&self) -> Option<&T>
        where T: std::fmt::Display + std::fmt::Debug + Send + Sync + 'static,
    {
        self.error.downcast_ref::<T>()
    }
}

/// Creates an `Ok` file system result.
pub fn ok<T>(value: T) -> (r: VfsResult<T>)
    ensures
        r == Result::<T, VfsError>::Ok(value),
{
    Result::Ok(value)
}

/// Builds an I/O error of kind `InvalidInput` with the message (`std::io::Error::new`).
/// Nothing is claimed of the error: its kind and message are not visible to the proofs.
#[verifier::external_body]
pub(crate) fn invalid_input_error(msg: &str) -> std::io::Error {
    std::io::Error::new(std::io::ErrorKind::InvalidInput, msg)
}

} // verus!
