//! How failures reach callers: a status code and a categorised message that
//! never carries the store's own report.

use vstd::prelude::*;
use vstd::string::*;
use crate::model::{ApiResponse, AppError};

verus! {

/// HTTP status of a failure.
pub open spec fn status_of(e: AppError) -> u16 {
    match e {
        AppError::CommandNotFound => 404,
        AppError::InvalidInput(_) => 400,
        AppError::DatabaseError(_) => 500,
        AppError::InternalError(_) => 500,
    }
}

/// The message callers see for a failure.
pub open spec fn public_message_of(e: AppError) -> Seq<char> {
    match e {
        AppError::CommandNotFound => "Command not found"@,
        AppError::InvalidInput(_) => "Invalid input"@,
        AppError::DatabaseError(_) => "Database error"@,
        AppError::InternalError(_) => "Internal server error"@,
    }
}

/// The full description of a failure, for the server's own log.
pub open spec fn description_of(e: AppError) -> Seq<char> {
    match e {
        AppError::DatabaseError(d) => "Database error: "@ + d@,
        AppError::CommandNotFound => "Command not found"@,
        AppError::InvalidInput(d) => "Invalid input: "@ + d@,
        AppError::InternalError(d) => "Internal server error: "@ + d@,
    }
}

impl AppError {
    /// HTTP status of this failure.
    pub fn status_code(&self) -> (r: u16)
        ensures
            r == status_of(*self),
    {
        match self {
            AppError::CommandNotFound => 404,
            AppError::InvalidInput(_) => 400,
            AppError::DatabaseError(_) => 500,
            AppError::InternalError(_) => 500,
        }
    }

    /// The message callers see for this failure.
    pub fn public_message(&self) -> (r: &'static str)
        ensures
            r@ == public_message_of(*self),
    {
        match self {
            AppError::CommandNotFound => "Command not found",
            AppError::InvalidInput(_) => "Invalid input",
            AppError::DatabaseError(_) => "Database error",
            AppError::InternalError(_) => "Internal server error",
        }
    }

    /// The full description of this failure, for the server's own log.
    pub fn description(&self) -> (r: String)
        ensures
            r@ == description_of(*self),
    {
        match self {
            AppError::DatabaseError(d) => String::from_str("Database error: ").concat(d.as_str()),
            AppError::CommandNotFound => String::from_str("Command not found"),
            AppError::InvalidInput(d) => String::from_str("Invalid input: ").concat(d.as_str()),
            AppError::InternalError(d) => String::from_str("Internal server error: ").concat(
                d.as_str(),
            ),
        }
    }

    /// The envelope of this failure: no data and the public message.
    pub fn to_response(&self) -> (r: ApiResponse<String>)
        ensures
            !r.success,
            r.data is None,
            r.message is Some,
            r.message->0@ == public_message_of(*self),
    {
        ApiResponse {
            success: false,
            data: None,
            message: Some(String::from_str(self.public_message())),
        }
    }
}

} // verus!
