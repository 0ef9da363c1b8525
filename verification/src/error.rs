//! The error type of the library.

use vstd::prelude::*;

verus! {

/// An error of the library.
#[derive(Debug, Clone)]
pub enum AppError {
    /// An argument that the library does not accept, with a message that says why.
    InvalidArgument(String),
}

impl AppError {
    /// The message that the error carries.
    pub open spec fn message(&self) -> Seq<char> {
        match self {
            AppError::InvalidArgument(m) => m@,
        }
    }

    /// The error's message as a `String`.
    pub fn to_string(&self) -> (res: String)
        ensures
            res@ == self.message(),
    {
        match self {
            AppError::InvalidArgument(m) => m.clone(),
        }
    }
}

/// Result of the library's fallible operations.
pub type AppResult<T> = Result<T, AppError>;

} // verus!
