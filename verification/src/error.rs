use vstd::prelude::*;
use vstd::string::StringExecFns;

verus! {

/// Errors reported by the account manager.
#[derive(Debug, Clone, PartialEq, Eq)]
pub enum AppError {
    Io(String),
    Json(String),
    Http(String),
    Encryption(String),
    Decryption(String),
    AccountNotFound(String),
    InvalidCookie(String),
    RobloxApi(String),
    Other(String),
}

/// Result type used throughout the crate.
pub type AppResult<T> = Result<T, AppError>;

/// The human readable prefix of each kind of error.
pub open spec fn error_prefix(e: AppError) -> Seq<char> {
    match e {
        AppError::Io(_) => "IO error: "@,
        AppError::Json(_) => "JSON error: "@,
        AppError::Http(_) => "HTTP error: "@,
        AppError::Encryption(_) => "Encryption error: "@,
        AppError::Decryption(_) => "Decryption error: "@,
        AppError::AccountNotFound(_) => "Account not found: "@,
        AppError::InvalidCookie(_) => "Invalid cookie: "@,
        AppError::RobloxApi(_) => "Roblox API error: "@,
        AppError::Other(_) => ""@,
    }
}

/// The detail text an error carries.
pub open spec fn error_detail(e: AppError) -> Seq<char> {
    match e {
        AppError::Io(s) => s@,
        AppError::Json(s) => s@,
        AppError::Http(s) => s@,
        AppError::Encryption(s) => s@,
        AppError::Decryption(s) => s@,
        AppError::AccountNotFound(s) => s@,
        AppError::InvalidCookie(s) => s@,
        AppError::RobloxApi(s) => s@,
        AppError::Other(s) => s@,
    }
}

impl AppError {
    /// The message shown to users: the kind's prefix followed by the detail.
    pub fn message(&self) -> (m: String)
        ensures
            m@ == error_prefix(*self) + error_detail(*self),
    {
        let (prefix, detail): (&str, &String) = match self {
            AppError::Io(s) => ("IO error: ", s),
            AppError::Json(s) => ("JSON error: ", s),
            AppError::Http(s) => ("HTTP error: ", s),
            AppError::Encryption(s) => ("Encryption error: ", s),
            AppError::Decryption(s) => ("Decryption error: ", s),
            AppError::AccountNotFound(s) => ("Account not found: ", s),
            AppError::InvalidCookie(s) => ("Invalid cookie: ", s),
            AppError::RobloxApi(s) => ("Roblox API error: ", s),
            AppError::Other(s) => ("", s),
        };
        let mut m = String::from_str(prefix);
        m.append(detail.as_str());
        m
    }
}

} // verus!
