//! The kernel's error type, its stable codes and its messages.
use vstd::prelude::*;
use vstd::string::*;

verus! {

/// What can go wrong in the kernel. Every variant carries the text that
/// follows its prefix in the message; for `Io` and `Json` that is the message
/// of the underlying I/O or JSON error.
#[derive(Debug, Clone, PartialEq, Eq)]
pub enum KernelError {
    InvalidData(String),
    NotFound(String),
    AlreadyExists(String),
    Protected(String),
    Dependency(String),
    Conflict(String),
    Unavailable(String),
    Io(String),
    Json(String),
    Internal(String),
}

/// A kernel error as a mathematical value.
pub enum ErrorView {
    InvalidData(Seq<char>),
    NotFound(Seq<char>),
    AlreadyExists(Seq<char>),
    Protected(Seq<char>),
    Dependency(Seq<char>),
    Conflict(Seq<char>),
    Unavailable(Seq<char>),
    Io(Seq<char>),
    Json(Seq<char>),
    Internal(Seq<char>),
}

impl View for KernelError {
    type V = ErrorView;

    open spec fn view(&self) -> ErrorView {
        match self {
            KernelError::InvalidData(s) => ErrorView::InvalidData(s@),
            KernelError::NotFound(s) => ErrorView::NotFound(s@),
            KernelError::AlreadyExists(s) => ErrorView::AlreadyExists(s@),
            KernelError::Protected(s) => ErrorView::Protected(s@),
            KernelError::Dependency(s) => ErrorView::Dependency(s@),
            KernelError::Conflict(s) => ErrorView::Conflict(s@),
            KernelError::Unavailable(s) => ErrorView::Unavailable(s@),
            KernelError::Io(s) => ErrorView::Io(s@),
            KernelError::Json(s) => ErrorView::Json(s@),
            KernelError::Internal(s) => ErrorView::Internal(s@),
        }
    }
}

/// The error of a fallible step that yields nothing, if it failed.
pub open spec fn failure_of(r: Result<(), KernelError>) -> Option<ErrorView> {
    match r {
        Ok(_) => None,
        Err(e) => Some(e@),
    }
}

impl ErrorView {
    /// The stable code of the error, as the control protocol reports it.
    pub open spec fn code(self) -> Seq<char> {
        match self {
            ErrorView::InvalidData(_) => "INVALID_DATA"@,
            ErrorView::Json(_) => "INVALID_DATA"@,
            ErrorView::NotFound(_) => "NOT_FOUND"@,
            ErrorView::AlreadyExists(_) => "ALREADY_EXISTS"@,
            ErrorView::Protected(_) => "PROTECTED_PLUGIN"@,
            ErrorView::Dependency(_) => "DEPENDENCY_ERROR"@,
            ErrorView::Conflict(_) => "CONFLICT"@,
            ErrorView::Unavailable(_) => "UNAVAILABLE"@,
            ErrorView::Io(_) => "IO_ERROR"@,
            ErrorView::Internal(_) => "INTERNAL"@,
        }
    }

    /// The human-readable message of the error.
    pub open spec fn message(self) -> Seq<char> {
        match self {
            ErrorView::InvalidData(s) => "invalid data: "@ + s,
            ErrorView::NotFound(s) => "plugin not found: "@ + s,
            ErrorView::AlreadyExists(s) => "plugin already exists: "@ + s,
            ErrorView::Protected(s) => "protected plugin cannot be changed: "@ + s,
            ErrorView::Dependency(s) => "dependency error: "@ + s,
            ErrorView::Conflict(s) => "operation conflict: "@ + s,
            ErrorView::Unavailable(s) => "daemon unavailable: "@ + s,
            ErrorView::Io(s) => "I/O error: "@ + s,
            ErrorView::Json(s) => "JSON error: "@ + s,
            ErrorView::Internal(s) => "internal error: "@ + s,
        }
    }
}

impl KernelError {
    /// The stable code of the error.
    pub fn code(&self) -> (r: &'static str)
        ensures
            r@ == self@.code(),
    {
        match self {
            KernelError::InvalidData(_) | KernelError::Json(_) => "INVALID_DATA",
            KernelError::NotFound(_) => "NOT_FOUND",
            KernelError::AlreadyExists(_) => "ALREADY_EXISTS",
            KernelError::Protected(_) => "PROTECTED_PLUGIN",
            KernelError::Dependency(_) => "DEPENDENCY_ERROR",
            KernelError::Conflict(_) => "CONFLICT",
            KernelError::Unavailable(_) => "UNAVAILABLE",
            KernelError::Io(_) => "IO_ERROR",
            KernelError::Internal(_) => "INTERNAL",
        }
    }

    /// The message of the error, its prefix followed by its detail.
    pub fn message(&self) -> (r: String)
        ensures
            r@ == self@.message(),
    {
        let (prefix, detail): (&str, &String) = match self {
            KernelError::InvalidData(s) => ("invalid data: ", s),
            KernelError::NotFound(s) => ("plugin not found: ", s),
            KernelError::AlreadyExists(s) => ("plugin already exists: ", s),
            KernelError::Protected(s) => ("protected plugin cannot be changed: ", s),
            KernelError::Dependency(s) => ("dependency error: ", s),
            KernelError::Conflict(s) => ("operation conflict: ", s),
            KernelError::Unavailable(s) => ("daemon unavailable: ", s),
            KernelError::Io(s) => ("I/O error: ", s),
            KernelError::Json(s) => ("JSON error: ", s),
            KernelError::Internal(s) => ("internal error: ", s),
        };
        let mut r = prefix.to_owned();
        r.append(detail.as_str());
        r
    }
}

} // verus!
