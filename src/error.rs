use vstd::prelude::*;

verus! {

/// The three kinds of failure that an operation of the store can report.
#[derive(Debug, PartialEq, Eq)]
pub enum AppError {
    /// Caller-supplied input failed validation.
    ParseError(String),
    /// A referenced entity is absent.
    NotFound(String),
    /// The underlying storage refused the operation.
    Database(String),
}

pub type AppResult<T> = Result<T, AppError>;

impl AppError {
    /// The text shown to a user for this error.
    pub fn message(&self) -> (r: String)
        ensures
            r@ == match self {
                AppError::ParseError(m) => m@,
                AppError::NotFound(m) => "Item not found: "@ + m@,
                AppError::Database(m) => "Database error: "@ + m@,
            },
    {
        match self {
            AppError::ParseError(m) => m.clone(),
            AppError::NotFound(m) => String::from_str("Item not found: ").concat(m.as_str()),
            AppError::Database(m) => String::from_str("Database error: ").concat(m.as_str()),
        }
    }
}

} // verus!
