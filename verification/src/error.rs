//! The errors that callers are told of.
use vstd::prelude::*;
use vstd::string::*;

use crate::text::joined;

verus! {

/// What failed.
#[derive(Clone, Copy, Debug, Eq, PartialEq, Structural)]
pub enum ErrorCode {
    ClientInitializationFailed,
    GitHubAuthRequired,
    AnalysisFailed,
    PullRequestLookupFailed,
    ReleaseNotesFetchFailed,
    ReleaseNotesParseFailed,
    UpdateFailed,
    YamlParseFailed,
}

impl ErrorCode {
    /// The name of the code in messages.
    pub open spec fn name(self) -> Seq<char> {
        match self {
            ErrorCode::ClientInitializationFailed => "CLIENT_INITIALIZATION_FAILED"@,
            ErrorCode::GitHubAuthRequired => "GITHUB_AUTH_REQUIRED"@,
            ErrorCode::AnalysisFailed => "ANALYSIS_FAILED"@,
            ErrorCode::PullRequestLookupFailed => "PULL_REQUEST_LOOKUP_FAILED"@,
            ErrorCode::ReleaseNotesFetchFailed => "RELEASE_NOTES_FETCH_FAILED"@,
            ErrorCode::ReleaseNotesParseFailed => "RELEASE_NOTES_PARSE_FAILED"@,
            ErrorCode::UpdateFailed => "UPDATE_FAILED"@,
            ErrorCode::YamlParseFailed => "YAML_PARSE_FAILED"@,
        }
    }

    /// The name of the code in messages.
    pub fn as_str(self) -> (r: &'static str)
        ensures
            r@ == self.name(),
    {
        match self {
            ErrorCode::ClientInitializationFailed => "CLIENT_INITIALIZATION_FAILED",
            ErrorCode::GitHubAuthRequired => "GITHUB_AUTH_REQUIRED",
            ErrorCode::AnalysisFailed => "ANALYSIS_FAILED",
            ErrorCode::PullRequestLookupFailed => "PULL_REQUEST_LOOKUP_FAILED",
            ErrorCode::ReleaseNotesFetchFailed => "RELEASE_NOTES_FETCH_FAILED",
            ErrorCode::ReleaseNotesParseFailed => "RELEASE_NOTES_PARSE_FAILED",
            ErrorCode::UpdateFailed => "UPDATE_FAILED",
            ErrorCode::YamlParseFailed => "YAML_PARSE_FAILED",
        }
    }
}

/// An error that a caller is told of.
#[derive(Debug)]
pub enum AnthelionError {
    /// An argument cannot be used, for this reason.
    InvalidArgument(String),
    /// The work failed, with this report.
    Failure { code: ErrorCode, report: String },
}

/// The result of work that a caller may be told has failed.
pub type AnthelionResult<T> = Result<T, AnthelionError>;

/// What an [`AnthelionError`] says.
pub enum ErrorSays {
    Invalid(Seq<char>),
    Failure(ErrorCode, Seq<char>),
}

impl View for AnthelionError {
    type V = ErrorSays;

    open spec fn view(&self) -> ErrorSays {
        match self {
            AnthelionError::InvalidArgument(reason) => ErrorSays::Invalid(reason@),
            AnthelionError::Failure { code, report } => ErrorSays::Failure(*code, report@),
        }
    }
}

/// Who is at fault: the caller, or what was done for it.
#[derive(Clone, Copy, Debug, Eq, PartialEq, Structural)]
pub enum ErrorStatus {
    InvalidArg,
    GenericFailure,
}

impl AnthelionError {
    /// The error of an argument that cannot be used.
    pub fn invalid(reason: String) -> (r: AnthelionError)
        ensures
            r@ == ErrorSays::Invalid(reason@),
    {
        AnthelionError::InvalidArgument(reason)
    }

    /// The error of work that failed.
    pub fn failure(code: ErrorCode, report: String) -> (r: AnthelionError)
        ensures
            r@ == ErrorSays::Failure(code, report@),
    {
        AnthelionError::Failure { code, report }
    }

    /// Who is at fault.
    pub fn status(&self) -> (r: ErrorStatus)
        ensures
            r == match self@ {
                ErrorSays::Invalid(_) => ErrorStatus::InvalidArg,
                ErrorSays::Failure(_, _) => ErrorStatus::GenericFailure,
            },
    {
        match self {
            AnthelionError::InvalidArgument(_) => ErrorStatus::InvalidArg,
            AnthelionError::Failure { .. } => ErrorStatus::GenericFailure,
        }
    }

    /// The error as a caller reads it.
    pub fn message(&self) -> (r: String)
        ensures
            r@ == match self@ {
                ErrorSays::Invalid(reason) => "[INVALID_ARGUMENT] "@ + reason,
                ErrorSays::Failure(code, report) => "["@ + code.name() + "] "@ + report,
            },
    {
        match self {
            AnthelionError::InvalidArgument(reason) => joined("[INVALID_ARGUMENT] ", reason.as_str()),
            AnthelionError::Failure { code, report } => {
                let mut message = joined("[", code.as_str());
                message.append("] ");
                message.append(report.as_str());
                message
            },
        }
    }
}

} // verus!
