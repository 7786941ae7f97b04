//! Error values of the library: a kind that callers match on, a human-readable
//! message and, where one is known, the path the error is about.
use vstd::prelude::*;

verus! {

/// What went wrong, coarse enough for a caller to react to.
#[derive(Debug, Clone, Copy, PartialEq, Eq, Structural)]
pub enum AppErrorKind {
    NotFound,
    AlreadyExists,
    AccessDenied,
    InvalidInput,
    Io,
    ModelLoad,
    Download,
    Cancelled,
    Unsupported,
}

/// An error with its kind, message and (optionally) the path it concerns.
#[derive(Debug, Clone)]
pub struct AppError {
    pub kind: AppErrorKind,
    pub message: String,
    pub path: Option<String>,
}

/// The text of an error: the message, then ` (<path>)` when a path is known.
pub open spec fn describe_spec(message: Seq<char>, path: Option<Seq<char>>) -> Seq<char> {
    match path {
        None => message,
        Some(p) => message + " ("@ + p + ")"@,
    }
}

/// Kind of a failed file-system call, as the system reported it.
#[derive(Debug, Clone, Copy, PartialEq, Eq, Structural)]
pub enum IoErrorKind {
    NotFound,
    PermissionDenied,
    AlreadyExists,
    Other,
}

/// A failed file-system call: its kind, the raw OS error code when there is
/// one, and its text.
#[derive(Debug, Clone, PartialEq, Eq)]
pub struct IoFailure {
    pub kind: IoErrorKind,
    pub raw_os_error: Option<i32>,
    pub text: String,
}

/// The error kind a failed file-system call maps to.
pub open spec fn io_error_kind(k: IoErrorKind) -> AppErrorKind {
    match k {
        IoErrorKind::NotFound => AppErrorKind::NotFound,
        IoErrorKind::PermissionDenied => AppErrorKind::AccessDenied,
        IoErrorKind::AlreadyExists => AppErrorKind::AlreadyExists,
        IoErrorKind::Other => AppErrorKind::Io,
    }
}

/// Result type used throughout the library.
pub type AppResult<T> = Result<T, AppError>;

impl AppError {
    /// The path of the error, as characters.
    pub open spec fn path_view(&self) -> Option<Seq<char>> {
        match self.path {
            Some(p) => Some(p@),
            None => None,
        }
    }

    /// An error of the given kind with a message and no path.
    pub fn new(kind: AppErrorKind, message: String) -> (e: AppError)
        ensures
            e.kind == kind,
            e.message@ == message@,
            e.path is None,
    {
        AppError { kind, message, path: None }
    }

    /// Text describing the error: its message, then the path in parentheses
    /// when there is one.
    pub fn describe(&self) -> (out: String)
        ensures
            out@ == describe_spec(self.message@, match self.path {
                Some(p) => Some(p@),
                None => None,
            }),
    {
        match &self.path {
            None => crate::logic::text::owned(self.message.as_str()),
            Some(p) => {
                let mut out = crate::logic::text::concat3(self.message.as_str(), " (", p.as_str());
                crate::logic::text::push_str(&mut out, ")");
                out
            },
        }
    }

    /// The error of a failed file-system call: its kind mapped by
    /// [`io_error_kind`], its text as the message.
    pub fn from_io(f: &IoFailure) -> (e: AppError)
        ensures
            e.kind == io_error_kind(f.kind),
            e.message@ == f.text@,
            e.path is None,
    {
        let kind = match f.kind {
            IoErrorKind::NotFound => AppErrorKind::NotFound,
            IoErrorKind::PermissionDenied => AppErrorKind::AccessDenied,
            IoErrorKind::AlreadyExists => AppErrorKind::AlreadyExists,
            IoErrorKind::Other => AppErrorKind::Io,
        };
        AppError { kind, message: f.text.clone(), path: None }
    }

    /// The same error with `path` attached.
    pub fn with_path(self, path: String) -> (e: AppError)
        ensures
            e.kind == self.kind,
            e.message@ == self.message@,
            e.path == Some(path),
    {
        AppError { kind: self.kind, message: self.message, path: Some(path) }
    }
}

} // verus!
