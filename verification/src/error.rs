//! The error type of the crate.

use crate::text::{decimal, push_decimal};
use vstd::prelude::*;
use vstd::string::*;

verus! {

/// Everything that can go wrong while a repository is turned into a digest.
///
/// The four variants that stand for a failure inside another library
/// (`IoError`, `HttpError`, `JsonError`, `UrlParseError`) carry that
/// library's own message.
#[derive(Debug, Clone)]
pub enum GitingestError {
    RepositoryNotFound(String),
    InvalidRepositoryUrl(String),
    GitOperationFailed(String),
    FileSystemError(String),
    IoError(String),
    HttpError(String),
    JsonError(String),
    UrlParseError(String),
    PatternError(String),
    TokenValidationError(String),
    TimeoutError(u64),
    ConfigError(String),
    ValidationError(String),
    InternalError(String),
}

impl GitingestError {
    /// The text of the error as shown to a user.
    pub open spec fn message_text(self) -> Seq<char> {
        match self {
            GitingestError::RepositoryNotFound(s) => "Repository not found: "@ + s@,
            GitingestError::InvalidRepositoryUrl(s) => "Invalid repository URL: "@ + s@,
            GitingestError::GitOperationFailed(s) => "Git operation failed: "@ + s@,
            GitingestError::FileSystemError(s) => "File system error: "@ + s@,
            GitingestError::IoError(s) => "IO error: "@ + s@,
            GitingestError::HttpError(s) => "HTTP client error: "@ + s@,
            GitingestError::JsonError(s) => "JSON parsing error: "@ + s@,
            GitingestError::UrlParseError(s) => "URL parsing error: "@ + s@,
            GitingestError::PatternError(s) => "Pattern matching error: "@ + s@,
            GitingestError::TokenValidationError(s) => "Token validation error: "@ + s@,
            GitingestError::TimeoutError(secs) => "Timeout error: operation timed out after "@
                + decimal(secs as nat) + " seconds"@,
            GitingestError::ConfigError(s) => "Configuration error: "@ + s@,
            GitingestError::ValidationError(s) => "Validation error: "@ + s@,
            GitingestError::InternalError(s) => "Internal server error: "@ + s@,
        }
    }

    /// Renders the error for display.
    pub fn message(&self) -> (out: String)
        ensures
            out@ == self.message_text(),
    {
        match self {
            GitingestError::RepositoryNotFound(s) => labelled("Repository not found: ", s),
            GitingestError::InvalidRepositoryUrl(s) => labelled("Invalid repository URL: ", s),
            GitingestError::GitOperationFailed(s) => labelled("Git operation failed: ", s),
            GitingestError::FileSystemError(s) => labelled("File system error: ", s),
            GitingestError::IoError(s) => labelled("IO error: ", s),
            GitingestError::HttpError(s) => labelled("HTTP client error: ", s),
            GitingestError::JsonError(s) => labelled("JSON parsing error: ", s),
            GitingestError::UrlParseError(s) => labelled("URL parsing error: ", s),
            GitingestError::PatternError(s) => labelled("Pattern matching error: ", s),
            GitingestError::TokenValidationError(s) => labelled("Token validation error: ", s),
            GitingestError::TimeoutError(secs) => {
                let mut out = String::from_str("Timeout error: operation timed out after ");
                push_decimal(&mut out, *secs);
                out.append(" seconds");
                out
            },
            GitingestError::ConfigError(s) => labelled("Configuration error: ", s),
            GitingestError::ValidationError(s) => labelled("Validation error: ", s),
            GitingestError::InternalError(s) => labelled("Internal server error: ", s),
        }
    }
}

fn labelled(label: &str, detail: &String) -> (out: String)
    ensures
        out@ == label@ + detail@,
{
    let mut out = String::from_str(label);
    out.append(detail.as_str());
    out
}

} // verus!
