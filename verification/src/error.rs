//! The errors of the service and how they show to a client.

use vstd::prelude::*;
use vstd::string::StringExecFns;

verus! {

/// What can go wrong. Each kind carries the text that names the cause.
pub enum AppError {
    WorkspaceNotFound(String),
    WorkspaceAlreadyExists(String),
    FileNotFound(String),
    /// A path that would leave the root of its workspace.
    PathNotAllowed(String),
    /// The index could not be created, opened, written or committed.
    IndexError(String),
    /// A query could not be read or run.
    SearchError(String),
    /// The file system refused.
    Io(String),
    /// Stored or received data that could not be read.
    Serde(String),
    Internal(String),
    BadRequest(String),
}

pub type AppResult<T> = Result<T, AppError>;

impl AppError {
    /// The status code that answers a request that ran into this error.
    pub open spec fn status(&self) -> u16 {
        match self {
            AppError::WorkspaceNotFound(_) => 404,
            AppError::WorkspaceAlreadyExists(_) => 409,
            AppError::FileNotFound(_) => 404,
            AppError::PathNotAllowed(_) => 403,
            AppError::IndexError(_) => 500,
            AppError::SearchError(_) => 500,
            AppError::Io(_) => 500,
            AppError::Serde(_) => 400,
            AppError::Internal(_) => 500,
            AppError::BadRequest(_) => 400,
        }
    }

    /// What stands before the cause in the text of the error.
    pub open spec fn heading(&self) -> Seq<char> {
        match self {
            AppError::WorkspaceNotFound(_) => "Workspace not found: "@,
            AppError::WorkspaceAlreadyExists(_) => "Workspace already exists: "@,
            AppError::FileNotFound(_) => "File not found: "@,
            AppError::PathNotAllowed(_) => "Path not allowed: "@,
            AppError::IndexError(_) => "Index error: "@,
            AppError::SearchError(_) => "Search error: "@,
            AppError::Io(_) => "IO error: "@,
            AppError::Serde(_) => "Serialization error: "@,
            AppError::Internal(_) => "Internal error: "@,
            AppError::BadRequest(_) => "Bad request: "@,
        }
    }

    /// The cause that the error carries.
    pub open spec fn cause(&self) -> Seq<char> {
        match self {
            AppError::WorkspaceNotFound(c) => c@,
            AppError::WorkspaceAlreadyExists(c) => c@,
            AppError::FileNotFound(c) => c@,
            AppError::PathNotAllowed(c) => c@,
            AppError::IndexError(c) => c@,
            AppError::SearchError(c) => c@,
            AppError::Io(c) => c@,
            AppError::Serde(c) => c@,
            AppError::Internal(c) => c@,
            AppError::BadRequest(c) => c@,
        }
    }

    /// The text of the error: heading and cause.
    pub open spec fn text(&self) -> Seq<char> {
        self.heading() + self.cause()
    }

    /// The text that a client is shown: that of the error, but for an
    /// internal error, whose cause is kept back.
    pub open spec fn shown(&self) -> Seq<char> {
        match self {
            AppError::Internal(_) => "Internal server error"@,
            _ => self.text(),
        }
    }

    /// The status code that answers a request that ran into this error.
    pub fn status_code(&self) -> (code: u16)
        ensures
            code == self.status(),
    {
        match self {
            AppError::WorkspaceNotFound(_) => 404,
            AppError::WorkspaceAlreadyExists(_) => 409,
            AppError::FileNotFound(_) => 404,
            AppError::PathNotAllowed(_) => 403,
            AppError::IndexError(_) => 500,
            AppError::SearchError(_) => 500,
            AppError::Io(_) => 500,
            AppError::Serde(_) => 400,
            AppError::Internal(_) => 500,
            AppError::BadRequest(_) => 400,
        }
    }

    /// The text of the error.
    pub fn message(&self) -> (text: String)
        ensures
            text@ == self.text(),
    {
        let (heading, cause) = match self {
            AppError::WorkspaceNotFound(c) => ("Workspace not found: ", c),
            AppError::WorkspaceAlreadyExists(c) => ("Workspace already exists: ", c),
            AppError::FileNotFound(c) => ("File not found: ", c),
            AppError::PathNotAllowed(c) => ("Path not allowed: ", c),
            AppError::IndexError(c) => ("Index error: ", c),
            AppError::SearchError(c) => ("Search error: ", c),
            AppError::Io(c) => ("IO error: ", c),
            AppError::Serde(c) => ("Serialization error: ", c),
            AppError::Internal(c) => ("Internal error: ", c),
            AppError::BadRequest(c) => ("Bad request: ", c),
        };
        let mut text = String::from_str(heading);
        text.append(cause.as_str());
        text
    }

    /// Status code and text of the answer to a client.
    pub fn into_response(&self) -> (r: (u16, String))
        ensures
            r.0 == self.status(),
            r.1@ == self.shown(),
    {
        let text = match self {
            AppError::Internal(_) => String::from_str("Internal server error"),
            _ => self.message(),
        };
        (self.status_code(), text)
    }
}

} // verus!
