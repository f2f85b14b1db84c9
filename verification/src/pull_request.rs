//! Pull requests that exist already.
use vstd::prelude::*;
use vstd::string::*;

use crate::text::{joined, trimmed};
use crate::time::Timestamp;
use crate::types::{ExistingPullRequestResult, GetExistingPullRequestOptions};
use crate::winget::{
    is_package_version, package_identifier_fault, package_version_fault, parse_package_identifier,
    parse_package_version,
};

verus! {

/// What is looked for.
#[derive(Debug)]
pub struct PullRequestQuery {
    pub package_identifier: String,
    pub package_version: String,
    pub ignore_other_users: bool,
}

/// What a query says.
pub struct QueryView {
    pub package_identifier: Seq<char>,
    pub package_version: Seq<char>,
    pub ignore_other_users: bool,
}

impl View for PullRequestQuery {
    type V = QueryView;

    open spec fn view(&self) -> QueryView {
        QueryView {
            package_identifier: self.package_identifier@,
            package_version: self.package_version@,
            ignore_other_users: self.ignore_other_users,
        }
    }
}

/// What options look for, or what is wrong with them.
pub open spec fn query_of(options: GetExistingPullRequestOptions) -> Result<QueryView, Seq<char>> {
    match package_identifier_fault(options.package_identifier@) {
        Some(fault) => Err("Invalid package identifier: "@ + fault),
        None => if !is_package_version(options.version@) {
            Err("Invalid package version: "@ + package_version_fault(options.version@))
        } else {
            Ok(
                QueryView {
                    package_identifier: options.package_identifier@,
                    package_version: trimmed(options.version@),
                    ignore_other_users: options.ignore_pull_requests_created_by_other_users == Some(
                        true,
                    ),
                },
            )
        },
    }
}

/// What options look for, or what is wrong with them.
pub fn pull_request_query(options: &GetExistingPullRequestOptions) -> (r: Result<
    PullRequestQuery,
    String,
>)
    ensures
        query_of(*options) == match r {
            Ok(query) => Ok::<QueryView, Seq<char>>(query@),
            Err(message) => Err(message@),
        },
{
    let package_identifier = match parse_package_identifier(options.package_identifier.as_str()) {
        Ok(identifier) => identifier,
        Err(fault) => {
            return Err(joined("Invalid package identifier: ", fault.as_str()));
        },
    };
    let package_version = match parse_package_version(options.version.as_str()) {
        Ok(version) => version,
        Err(fault) => {
            return Err(joined("Invalid package version: ", fault.as_str()));
        },
    };
    Ok(
        PullRequestQuery {
            package_identifier,
            package_version,
            ignore_other_users: match options.ignore_pull_requests_created_by_other_users {
                Some(ignore) => ignore,
                None => false,
            },
        },
    )
}

/// The state of a pull request.
#[derive(Clone, Copy, Debug, Eq, PartialEq, Structural)]
pub enum PullRequestState {
    Open,
    Closed,
    Merged,
}

impl PullRequestState {
    /// The name of the state.
    pub open spec fn name(self) -> Seq<char> {
        match self {
            PullRequestState::Open => "open"@,
            PullRequestState::Closed => "closed"@,
            PullRequestState::Merged => "merged"@,
        }
    }

    /// The name of the state.
    pub fn as_str(self) -> (r: &'static str)
        ensures
            r@ == self.name(),
    {
        match self {
            PullRequestState::Open => "open",
            PullRequestState::Closed => "closed",
            PullRequestState::Merged => "merged",
        }
    }
}

/// A pull request that GitHub found.
#[derive(Debug)]
pub struct FoundPullRequest {
    pub url: String,
    pub author_login: Option<String>,
    pub viewer_did_author: bool,
    pub state: PullRequestState,
    pub created_at: Timestamp,
}

/// Whether a result tells of a pull request, which was created at the moment that a text names. One
/// without an author has an empty login.
pub open spec fn tells_of(
    told: ExistingPullRequestResult,
    found: FoundPullRequest,
    created_at: Seq<char>,
) -> bool {
    &&& told.pull_request_url@ == found.url@
    &&& told.created_by@ == match found.author_login {
        Some(login) => login@,
        None => Seq::empty(),
    }
    &&& told.created_by_authenticated_user == found.viewer_did_author
    &&& told.state@ == found.state.name()
    &&& told.created_at@ == created_at
}

/// Tells a caller of a pull request, given the text of the moment at which it was created.
pub fn tell_pull_request(found: FoundPullRequest, created_at: String) -> (r:
    ExistingPullRequestResult)
    ensures
        tells_of(r, found, created_at@),
{
    let created_by = match found.author_login {
        Some(login) => login,
        None => String::new(),
    };
    assert(found.author_login is None ==> created_by@ =~= Seq::empty());
    ExistingPullRequestResult {
        pull_request_url: found.url,
        created_by,
        created_by_authenticated_user: found.viewer_did_author,
        state: found.state.as_str().to_owned(),
        created_at,
    }
}

/// Tells a caller of a pull request, where one was found: when it was created in RFC 3339.
pub fn existing_pull_request(found: Option<FoundPullRequest>) -> (r: Option<
    ExistingPullRequestResult,
>)
    ensures
        match found {
            None => r is None,
            Some(found) => r matches Some(told) && tells_of(told, found, found.created_at.text()),
        },
{
    match found {
        None => None,
        Some(found) => {
            let created_at = found.created_at.show();
            Some(tell_pull_request(found, created_at))
        },
    }
}

} // verus!
