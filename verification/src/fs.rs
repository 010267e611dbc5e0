//! The file-system errors the runtime reports, and their messages.
use vstd::prelude::*;

verus! {

/// A file-system error; `Io` and `Utf8` carry the message of the error
/// behind them.
#[derive(Debug)]
pub enum FsError {
    Io(String),
    Utf8(String),
    NotFound(String),
    PermissionDenied(String),
}

/// The kinds of I/O error that get an error of their own.
#[derive(Debug, Clone, Copy, PartialEq, Eq, Structural)]
pub enum IoKind {
    NotFound,
    PermissionDenied,
    Other,
}

/// The message of an error.
pub open spec fn fs_error_message(e: FsError) -> Seq<char> {
    match e {
        FsError::Io(m) => m@,
        FsError::Utf8(m) => m@,
        FsError::NotFound(p) => "ENOENT: no such file or directory, '"@ + p@ + "'"@,
        FsError::PermissionDenied(p) => "EACCES: permission denied, '"@ + p@ + "'"@,
    }
}

impl FsError {
    /// The message of this error (see `fs_error_message`).
    pub fn message(&self) -> (m: String)
        ensures
            m@ == fs_error_message(*self),
    {
        match self {
            FsError::Io(m) => m.clone(),
            FsError::Utf8(m) => m.clone(),
            FsError::NotFound(p) => crate::report::cat3(
                "ENOENT: no such file or directory, '",
                p.as_str(),
                "'",
            ),
            FsError::PermissionDenied(p) => crate::report::cat3(
                "EACCES: permission denied, '",
                p.as_str(),
                "'",
            ),
        }
    }

    /// The error for an I/O error of the given kind and message.
    pub fn from_io(kind: IoKind, message: String) -> (e: FsError)
        ensures
            kind == IoKind::NotFound ==> e == FsError::NotFound(message),
            kind == IoKind::PermissionDenied ==> e == FsError::PermissionDenied(message),
            kind == IoKind::Other ==> e == FsError::Io(message),
    {
        match kind {
            IoKind::NotFound => FsError::NotFound(message),
            IoKind::PermissionDenied => FsError::PermissionDenied(message),
            IoKind::Other => FsError::Io(message),
        }
    }
}

/// What a `stat` reports.
pub struct StatInfo {
    pub is_file: bool,
    pub is_dir: bool,
    pub is_symlink: bool,
    pub size: u64,
}

/// `accessSync`: `NotFound` naming the path when it does not exist.
pub fn access_sync(path: &str, exists: bool) -> (r: Result<(), FsError>)
    ensures
        exists ==> r is Ok,
        !exists ==> (r matches Err(FsError::NotFound(p)) && p@ == path@),
{
    if !exists {
        return Err(FsError::NotFound(path.to_owned()));
    }
    Ok(())
}

/// The file-system constants of the runtime.
pub const O_RDONLY: i32 = 0;
pub const O_WRONLY: i32 = 1;
pub const O_RDWR: i32 = 2;
pub const F_OK: i32 = 0;
pub const R_OK: i32 = 4;
pub const W_OK: i32 = 2;
pub const X_OK: i32 = 1;

} // verus!
