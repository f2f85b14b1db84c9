//! Pull requests, package versions, install directories and moments.
use vstd::prelude::*;

use crate::manifest::Scope;
use crate::pull_request::{query_of, tells_of, FoundPullRequest, PullRequestQuery};
use crate::text::trimmed;
use crate::time::{is_day, is_moment, opt_date, Date};
use crate::types::{ExistingPullRequestResult, GetExistingPullRequestOptions};
use crate::winget::{
    directory_scope, is_disallowed, is_package_version, named_in_url, package_identifier_fault,
    package_version_fault, searched_url, url_architecture, VersionOrder,
};

verus! {

/// A pull request is looked for by the identifier as it is, and the version without the white space around it.
/// Those of other users are ignored only where that is asked for. What is wrong with the identifier is told
/// before what is wrong with the version.
pub proof fn law_query(options: GetExistingPullRequestOptions)
    ensures
        match (package_identifier_fault(options.package_identifier@), query_of(options)) {
            (Some(fault), r) => (r matches Err(message) && message == "Invalid package identifier: "@
                + fault),
            (None, Err(message)) => !is_package_version(options.version@) && message
                == "Invalid package version: "@ + package_version_fault(options.version@),
            (None, Ok(query)) => {
                &&& is_package_version(options.version@)
                &&& query.package_identifier == options.package_identifier@
                &&& query.package_version == trimmed(options.version@)
                &&& query.ignore_other_users <==> (
                options.ignore_pull_requests_created_by_other_users matches Some(ignored) && ignored)
            },
        },
{
}

/// A query says what it looks for.
pub proof fn law_query_view(query: PullRequestQuery)
    ensures
        query@.package_identifier == query.package_identifier@,
        query@.package_version == query.package_version@,
        query@.ignore_other_users == query.ignore_other_users,
{
}

/// A result tells of a pull request by its URL, its author, whose login is empty where there is none, whether
/// that is the user, its state and the moment of its creation.
pub proof fn law_told_pull_request(
    told: ExistingPullRequestResult,
    found: FoundPullRequest,
    created_at: Seq<char>,
)
    requires
        tells_of(told, found, created_at),
    ensures
        told.pull_request_url@ == found.url@,
        found.author_login matches Some(login) ==> told.created_by@ == login@,
        found.author_login is None ==> told.created_by@.len() == 0,
        told.created_by_authenticated_user == found.viewer_did_author,
        told.state@ == found.state.name(),
        told.created_at@ == created_at,
{
}

/// A package version has 1 to 128 characters, of which none is a control character or one that a path or a file
/// name cannot hold.
pub proof fn law_package_version(s: Seq<char>)
    ensures
        is_package_version(s) <==> s.len() >= 1 && s.len() <= 128 && forall|i: int|
            0 <= i < s.len() ==> !is_disallowed(#[trigger] s[i]),
{
}

/// The characters that a package version may not hold.
pub proof fn law_disallowed(c: char)
    ensures
        is_disallowed(c) <==> (c as u32) < 0x20 || ((c as u32) > 0x7E && (c as u32) < 0xA0) || seq![
            '\\',
            '/',
            ':',
            '*',
            '?',
            '"',
            '<',
            '>',
            '|',
        ].contains(c),
{
    let all = seq!['\\', '/', ':', '*', '?', '"', '<', '>', '|'];
    assert(all[0] == '\\' && all[1] == '/' && all[2] == ':' && all[3] == '*' && all[4] == '?');
    assert(all[5] == '"' && all[6] == '<' && all[7] == '>' && all[8] == '|');
}

/// Below the directories of a user, an installer installs for that user, and below those of the machine, for
/// the machine; another directory tells nothing.
pub proof fn law_directory_scope(rest: Seq<char>, path: Seq<char>)
    ensures
        directory_scope("%AppData%"@ + rest) == Some(Scope::User),
        directory_scope("%LocalAppData%"@ + rest) == Some(Scope::User),
        directory_scope(path) == Some(Scope::User) <==> "%AppData%"@.is_prefix_of(path)
            || "%LocalAppData%"@.is_prefix_of(path),
        directory_scope(path) is None <==> !"%AppData%"@.is_prefix_of(path)
            && !"%LocalAppData%"@.is_prefix_of(path) && !"%ProgramFiles%"@.is_prefix_of(path)
            && !"%ProgramFiles(x86)%"@.is_prefix_of(path) && !"%CommonProgramFiles%"@.is_prefix_of(path)
            && !"%CommonProgramFiles(x86)%"@.is_prefix_of(path) && !"%ProgramData%"@.is_prefix_of(path)
            && !"%WinDir%"@.is_prefix_of(path) && !"%SystemRoot%"@.is_prefix_of(path),
{
    lemma_scope(path);
    lemma_scope("%AppData%"@ + rest);
    lemma_scope("%LocalAppData%"@ + rest);
    let (a, b) = ("%AppData%"@, "%LocalAppData%"@);
    assert(a =~= (a + rest).subrange(0, a.len() as int));
    assert(b =~= (b + rest).subrange(0, b.len() as int));
}

proof fn lemma_scope(path: Seq<char>)
    ensures
        directory_scope(path) == Some(Scope::User) <==> "%AppData%"@.is_prefix_of(path)
            || "%LocalAppData%"@.is_prefix_of(path),
        directory_scope(path) is None <==> !"%AppData%"@.is_prefix_of(path)
            && !"%LocalAppData%"@.is_prefix_of(path) && !"%ProgramFiles%"@.is_prefix_of(path)
            && !"%ProgramFiles(x86)%"@.is_prefix_of(path) && !"%CommonProgramFiles%"@.is_prefix_of(path)
            && !"%CommonProgramFiles(x86)%"@.is_prefix_of(path) && !"%ProgramData%"@.is_prefix_of(path)
            && !"%WinDir%"@.is_prefix_of(path) && !"%SystemRoot%"@.is_prefix_of(path),
{
    let user = crate::winget::user_directories();
    assert(user[0] == "%AppData%"@ && user[1] == "%LocalAppData%"@);
    let machine = crate::winget::machine_directories();
    assert(machine[0] == "%ProgramFiles%"@ && machine[1] == "%ProgramFiles(x86)%"@);
    assert(machine[2] == "%CommonProgramFiles%"@ && machine[3] == "%CommonProgramFiles(x86)%"@);
    assert(machine[4] == "%ProgramData%"@ && machine[5] == "%WinDir%"@ && machine[6] == "%SystemRoot%"@);
}

/// An architecture is looked for in the URL with one slash behind it; before it stand blanks, unless it is a URL
/// of the web, and nothing else is added or changed.
pub proof fn law_searched_url(url: Seq<char>)
    ensures
        named_in_url(url) == url_architecture(searched_url(url)),
        ("http://"@.is_prefix_of(url) || "https://"@.is_prefix_of(url)) ==> searched_url(url) == url + seq![
            '/',
        ],
        !"http://"@.is_prefix_of(url) && !"https://"@.is_prefix_of(url) ==> searched_url(url) == seq![
            ' ',
            ' ',
            ' ',
            ' ',
            ' ',
            ' ',
            ' ',
        ] + url + seq!['/'],
{
    reveal_strlit("/");
    reveal_strlit("       ");
    assert("/"@ =~= seq!['/']);
    assert("       "@ =~= seq![' ', ' ', ' ', ' ', ' ', ' ', ' ']);
}

/// The order of two versions taken the other way round is the reverse, and taken twice it is itself.
pub proof fn law_reversed_order(order: VersionOrder)
    ensures
        order is Before <==> order.reversed() is After,
        order is After <==> order.reversed() is Before,
        order is Same <==> order.reversed() is Same,
        order.reversed().reversed() == order,
{
}

/// A moment lies within the years that can be told, and a second has as many nanoseconds as it has; only one
/// that ends a minute may have a leap second besides.
pub proof fn law_moment(seconds: i64, nanoseconds: u32)
    ensures
        seconds < -8_334_601_228_800 || seconds > 8_210_266_876_799 ==> !is_moment(seconds, nanoseconds),
        -8_334_601_228_800 <= seconds <= 8_210_266_876_799 ==> {
            &&& nanoseconds <= 999_999_999 ==> is_moment(seconds, nanoseconds)
            &&& nanoseconds > 1_999_999_999 ==> !is_moment(seconds, nanoseconds)
            &&& 999_999_999 < nanoseconds <= 1_999_999_999 ==> is_moment(seconds, nanoseconds) == (
            seconds as int % 60 == 59)
        },
{
}

/// There is a date for the days that can be told, and for no others.
pub proof fn law_day(days: i32, date: Date)
    ensures
        is_day(days) <==> -96_465_292 <= days && days <= 95_026_236,
        opt_date(Some(date)) == Some(date.text()),
        opt_date(None) is None,
{
}

} // verus!
