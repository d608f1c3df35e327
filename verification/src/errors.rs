//! Errors of the service and the HTTP status each one is answered with.
use vstd::prelude::*;

verus! {

/// A field that failed a check, with the code and message of the check and
/// its parameters.
#[derive(Clone, Debug)]
pub struct FieldError {
    pub field: String,
    pub code: String,
    pub message: Option<String>,
    pub params: Vec<(String, String)>,
}

/// Errors of the service.
#[derive(Debug)]
pub enum Error {
    NotFound,
    Parse,
    Validate(Vec<FieldError>),
    Forbidden,
    Connection,
    HttpClient,
    Internal,
}

/// The HTTP status an error is answered with.
pub open spec fn status_of(e: Error) -> u16 {
    match e {
        Error::NotFound => 404,
        Error::Parse => 422,
        Error::Validate(_) => 400,
        Error::Forbidden => 403,
        Error::Connection | Error::HttpClient | Error::Internal => 500,
    }
}

impl Error {
    /// The HTTP status the error is answered with: 404 when nothing was
    /// found, 422 for what could not be parsed, 400 for what failed a check,
    /// 403 for what is forbidden, 500 for failures of the service.
    pub fn code(&self) -> (res: u16)
        ensures
            res == status_of(*self),
    {
        match self {
            Error::NotFound => 404,
            Error::Parse => 422,
            Error::Validate(_) => 400,
            Error::Forbidden => 403,
            Error::Connection | Error::HttpClient | Error::Internal => 500,
        }
    }
}

/// How a database request failed.
#[derive(Clone, Debug)]
pub enum DatabaseFailure {
    /// A unique constraint refused the row; the database's message.
    UniqueViolation { message: String },
    /// No row was found.
    NotFound,
    /// Any other failure.
    Other,
}

impl Error {
    /// The error of a failed database request: a row that is not unique is
    /// a failed check of the field `repo` (code `not_unique`, with the
    /// database's message as parameter `message`), a missing row is not
    /// found, anything else is an internal failure.
    pub fn from_database(e: DatabaseFailure) -> (res: Error)
        ensures
            match e {
                DatabaseFailure::UniqueViolation { message } => res matches Error::Validate(v) && v@.len()
                    == 1 && v@[0].field@ == "repo"@ && v@[0].code@ == "not_unique"@ && v@[0].message is None
                    && v@[0].params@.len() == 1 && v@[0].params@[0].0@ == "message"@
                    && v@[0].params@[0].1@ == message@,
                DatabaseFailure::NotFound => res matches Error::NotFound,
                DatabaseFailure::Other => res matches Error::Internal,
            },
    {
        match e {
            DatabaseFailure::UniqueViolation { message } => {
                let mut params: Vec<(String, String)> = Vec::new();
                params.push((String::from_str("message"), message));
                let mut errors: Vec<FieldError> = Vec::new();
                errors.push(
                    FieldError {
                        field: String::from_str("repo"),
                        code: String::from_str("not_unique"),
                        message: None,
                        params,
                    },
                );
                Error::Validate(errors)
            },
            DatabaseFailure::NotFound => Error::NotFound,
            DatabaseFailure::Other => Error::Internal,
        }
    }
}

} // verus!
