use vstd::prelude::*;

verus! {

/// The closed set of failures shared by command execution and persistence.
///
/// The storage-related kinds carry a description of their underlying cause.
#[derive(Debug, PartialEq, Eq)]
pub enum AggregateError {
    AggregateConflict,
    DatabaseConnectionError(String),
    DeserializationError(String),
    UnexpectedError(String),
    CommandNotConvertible,
    NotFound,
}

/// The text that describes an error: the kind's name, or the wrapped cause.
pub open spec fn error_message(e: AggregateError) -> Seq<char> {
    match e {
        AggregateError::AggregateConflict => "AggregateConflict"@,
        AggregateError::DatabaseConnectionError(cause) => cause@,
        AggregateError::DeserializationError(cause) => cause@,
        AggregateError::UnexpectedError(cause) => cause@,
        AggregateError::CommandNotConvertible => "CommandNotConvertible"@,
        AggregateError::NotFound => "NotFound"@,
    }
}

impl AggregateError {
    /// Describes the error for diagnostics.
    pub fn message(&self) -> (r: String)
        ensures
            r@ == error_message(*self),
    {
        match self {
            AggregateError::AggregateConflict => "AggregateConflict".to_string(),
            AggregateError::DatabaseConnectionError(cause) => cause.clone(),
            AggregateError::DeserializationError(cause) => cause.clone(),
            AggregateError::UnexpectedError(cause) => cause.clone(),
            AggregateError::CommandNotConvertible => "CommandNotConvertible".to_string(),
            AggregateError::NotFound => "NotFound".to_string(),
        }
    }
}

} // verus!
