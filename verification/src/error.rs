use vstd::prelude::*;

verus! {

/// Application error: the HTTP-facing classification of a failure with its message.
#[derive(Debug)]
pub enum AppError {
    BadRequest(String),
    Unauthorized(String),
    Forbidden(String),
    NotFound(String),
    Conflict(String),
    Internal(String),
}

/// Which class of failure an `AppError` is.
pub enum AppErrorKind {
    BadRequest,
    Unauthorized,
    Forbidden,
    NotFound,
    Conflict,
    Internal,
}

impl View for AppError {
    type V = (AppErrorKind, Seq<char>);

    /// The class of the error and its message.
    open spec fn view(&self) -> (AppErrorKind, Seq<char>) {
        (self.kind(), self.message())
    }
}

impl AppError {
    /// The class of the error.
    pub open spec fn kind(&self) -> AppErrorKind {
        match self {
            AppError::BadRequest(_) => AppErrorKind::BadRequest,
            AppError::Unauthorized(_) => AppErrorKind::Unauthorized,
            AppError::Forbidden(_) => AppErrorKind::Forbidden,
            AppError::NotFound(_) => AppErrorKind::NotFound,
            AppError::Conflict(_) => AppErrorKind::Conflict,
            AppError::Internal(_) => AppErrorKind::Internal,
        }
    }

    /// The message the error carries.
    pub open spec fn message(&self) -> Seq<char> {
        match self {
            AppError::BadRequest(m) => m@,
            AppError::Unauthorized(m) => m@,
            AppError::Forbidden(m) => m@,
            AppError::NotFound(m) => m@,
            AppError::Conflict(m) => m@,
            AppError::Internal(m) => m@,
        }
    }

    pub fn bad_request(message: &str) -> (e: AppError)
        ensures
            e is BadRequest,
            e.message() == message@,
    {
        AppError::BadRequest(message.to_owned())
    }

    pub fn unauthorized(message: &str) -> (e: AppError)
        ensures
            e is Unauthorized,
            e.message() == message@,
    {
        AppError::Unauthorized(message.to_owned())
    }

    pub fn forbidden(message: &str) -> (e: AppError)
        ensures
            e is Forbidden,
            e.message() == message@,
    {
        AppError::Forbidden(message.to_owned())
    }

    pub fn not_found(message: &str) -> (e: AppError)
        ensures
            e is NotFound,
            e.message() == message@,
    {
        AppError::NotFound(message.to_owned())
    }

    pub fn conflict(message: &str) -> (e: AppError)
        ensures
            e is Conflict,
            e.message() == message@,
    {
        AppError::Conflict(message.to_owned())
    }

    pub fn internal(message: &str) -> (e: AppError)
        ensures
            e is Internal,
            e.message() == message@,
    {
        AppError::Internal(message.to_owned())
    }
}

} // verus!
