//! Texts, numbers, errors and the decisions of the commands.
use anthelion::command::{
    analyze_output, completion_shell, is_valid_file, set_hash, AnalyzeOutput,
};
use anthelion::error::{AnthelionError, ErrorCode, ErrorStatus};
use anthelion::manifest::{Architecture, Installer, Switches};
use anthelion::number::{decimal, parse_number};
use anthelion::pull_request::{
    existing_pull_request, pull_request_query, FoundPullRequest, PullRequestState,
};
use anthelion::search::{
    eq_ignore_ascii_case, replace, starts_with, to_ascii_lowercase, trim_matches, trim_start_matches,
};
use anthelion::text::{join, joined, str_eq, str_less, trim};
use anthelion::time::{Date, Timestamp};
use anthelion::types::GetExistingPullRequestOptions;

fn installer() -> Installer {
    Installer {
        locale: None,
        architecture: Architecture::X64,
        installer_type: None,
        nested_installer_type: None,
        nested_installer_files: Vec::new(),
        scope: None,
        url: String::new(),
        sha_256: "old".to_owned(),
        release_date: None,
        product_code: None,
        apps_and_features_entries: Vec::new(),
        install_location: None,
        all_install_modes: false,
        switches: Switches::none(),
        expected_return_codes: Vec::new(),
    }
}

fn options(identifier: &str, version: &str, ignore: Option<bool>) -> GetExistingPullRequestOptions {
    GetExistingPullRequestOptions {
        package_identifier: identifier.to_owned(),
        version: version.to_owned(),
        token: None,
        ignore_pull_requests_created_by_other_users: ignore,
    }
}

#[test]
fn trims_white_space() {
    for s in vec!["", " ", "a", " a b\t\n", "\u{a0}\u{2003}x\u{3000}", "\u{200b}x", "\u{85}y"] {
        assert_eq!(trim(s), s.trim());
    }
}

#[test]
fn orders_texts() {
    for (a, b) in vec![("a", "b"), ("", "a"), ("ab", "abc"), ("z", "ä"), ("\u{ffff}", "\u{10000}")] {
        assert!(str_less(a, b));
        assert!(!str_less(b, a));
        assert!(!str_eq(a, b));
        assert!(!str_less(a, a));
        assert!(str_eq(a, a));
    }
}

#[test]
fn joins_texts() {
    assert_eq!(joined("ä", "b"), "äb");
    assert_eq!(join(&Vec::new(), ", "), "");
    assert_eq!(join(&vec!["a".to_owned()], ", "), "a");
    assert_eq!(join(&vec!["a".to_owned(), String::new(), "b".to_owned()], ", "), "a, , b");
}

#[test]
fn searches_texts() {
    assert_eq!(to_ascii_lowercase("ABcÄZ["), "abcÄz[");
    assert!(eq_ignore_ascii_case("SETUP.ini", "setup.INI"));
    assert!(!eq_ignore_ascii_case("Ä", "ä"));
    assert!(starts_with("InstallScript 2", "InstallScript"));
    assert!(!starts_with("Install", "InstallScript"));
    assert_eq!(replace("aXbXXc", "X", "yy"), "ayybyyyyc");
    assert_eq!(replace("aaa", "aa", "b"), "ba");
    assert_eq!(trim_start_matches("0x0x0409", "0x"), "0409");
    assert_eq!(trim_matches("\0\0a\0b\0", '\0'), "a\0b");
}

#[test]
fn reads_and_writes_numbers() {
    for n in vec![0u128, 7, 10, 128, 1_000_000, u64::MAX as u128, u128::MAX] {
        assert_eq!(decimal(n), n.to_string());
    }
    let max: u32 = u16::MAX as u32;
    for s in vec!["0", "409", "0409", "ffff", "FFFF", "10000", "", "+", "+1", "-1", "g", " 1", "00000001"] {
        assert_eq!(parse_number(s, 16, max), u16::from_str_radix(s, 16).ok().map(u32::from), "{s}");
    }
    for s in vec!["4294967295", "4294967296", "12a", "+7", "", "99999999999999999999"] {
        assert_eq!(parse_number(s, 10, u32::MAX), s.parse::<u32>().ok(), "{s}");
    }
}

#[test]
fn errors_show_their_code() {
    let codes = vec![
        (ErrorCode::ClientInitializationFailed, "CLIENT_INITIALIZATION_FAILED"),
        (ErrorCode::GitHubAuthRequired, "GITHUB_AUTH_REQUIRED"),
        (ErrorCode::AnalysisFailed, "ANALYSIS_FAILED"),
        (ErrorCode::PullRequestLookupFailed, "PULL_REQUEST_LOOKUP_FAILED"),
        (ErrorCode::ReleaseNotesFetchFailed, "RELEASE_NOTES_FETCH_FAILED"),
        (ErrorCode::ReleaseNotesParseFailed, "RELEASE_NOTES_PARSE_FAILED"),
        (ErrorCode::UpdateFailed, "UPDATE_FAILED"),
        (ErrorCode::YamlParseFailed, "YAML_PARSE_FAILED"),
    ];
    for (code, name) in codes {
        let error = AnthelionError::failure(code, "why".to_owned());
        assert_eq!(error.status(), ErrorStatus::GenericFailure);
        assert_eq!(error.message(), format!("[{name}] why"));
    }
    let error = AnthelionError::invalid("why".to_owned());
    assert_eq!(error.status(), ErrorStatus::InvalidArg);
    assert_eq!(error.message(), "[INVALID_ARGUMENT] why");
}

#[test]
fn picks_what_is_printed() {
    assert_eq!(analyze_output(true, false, 1), AnalyzeOutput::Executable);
    assert_eq!(analyze_output(true, false, 0), AnalyzeOutput::ExecutableWithInstallers);
    assert_eq!(analyze_output(true, false, 2), AnalyzeOutput::ExecutableWithInstallers);
    assert_eq!(analyze_output(false, true, 1), AnalyzeOutput::Font);
    assert_eq!(analyze_output(false, false, 1), AnalyzeOutput::Installer);
    assert_eq!(analyze_output(false, false, 3), AnalyzeOutput::Installers);
}

#[test]
fn sets_the_hash_where_there_is_one() {
    let mut installers = vec![installer(), installer()];
    set_hash(&mut installers, &None);
    assert_eq!(installers[1].sha_256, "old");
    set_hash(&mut installers, &Some("new".to_owned()));
    assert_eq!(installers[0].sha_256, "new");
    assert_eq!(installers[1].sha_256, "new");
}

#[test]
fn picks_the_shell() {
    assert_eq!(completion_shell(Some("zsh"), Some("bash")), Ok("zsh"));
    assert_eq!(completion_shell(None, Some("bash")), Ok("bash"));
    assert_eq!(
        completion_shell::<&str>(None, None),
        Err("Unable to determine the current shell from the environment")
    );
}

#[test]
fn accepts_existing_files() {
    assert_eq!(is_valid_file("a.exe", true, true), Ok("a.exe".to_owned()));
    assert_eq!(is_valid_file("dir", true, false), Err("dir is not a file".to_owned()));
    assert_eq!(is_valid_file("none", false, false), Err("none does not exist".to_owned()));
}

#[test]
fn looks_for_pull_requests() {
    let query = pull_request_query(&options("A.B", " 1.0 ", Some(true))).unwrap();
    assert_eq!(query.package_identifier, "A.B");
    assert_eq!(query.package_version, "1.0");
    assert!(query.ignore_other_users);
    assert!(!pull_request_query(&options("A.B", "1", None)).unwrap().ignore_other_users);
    assert!(!pull_request_query(&options("A.B", "1", Some(false))).unwrap().ignore_other_users);
    assert!(pull_request_query(&options("", "?", None))
        .unwrap_err()
        .starts_with("Invalid package identifier: "));
    assert_eq!(
        pull_request_query(&options("A.B", "?", None)).unwrap_err(),
        "Invalid package version: Package version contains invalid character '?'"
    );
}

#[test]
fn shows_a_pull_request() {
    let found = |state: PullRequestState, author: Option<&str>| {
        existing_pull_request(Some(FoundPullRequest {
            url: "https://github.com/p/1".to_owned(),
            author_login: author.map(str::to_owned),
            viewer_did_author: true,
            state,
            created_at: Timestamp::new(1704164645, 0).unwrap(),
        }))
        .unwrap()
    };
    let shown = found(PullRequestState::Open, Some("me"));
    assert_eq!(shown.pull_request_url, "https://github.com/p/1");
    assert_eq!(shown.created_by, "me");
    assert!(shown.created_by_authenticated_user);
    assert_eq!(shown.state, "open");
    assert_eq!(shown.created_at, "2024-01-02T03:04:05+00:00");
    assert_eq!(found(PullRequestState::Closed, None).state, "closed");
    assert_eq!(found(PullRequestState::Closed, None).created_by, "");
    assert_eq!(found(PullRequestState::Merged, None).state, "merged");
    assert!(existing_pull_request(None).is_none());
}

#[test]
fn moments_have_texts() {
    let text = |seconds: i64, nanoseconds: u32| {
        Timestamp::new(seconds, nanoseconds).map(|moment| moment.show())
    };
    assert_eq!(text(0, 0).unwrap(), "1970-01-01T00:00:00+00:00");
    assert_eq!(text(-1, 5_000_000).unwrap(), "1969-12-31T23:59:59.005+00:00");
    // A leap second ends a minute.
    assert_eq!(text(59, 1_000_000_000).unwrap(), "1970-01-01T00:00:60+00:00");
    assert_eq!(text(-1, 1_999_999_999).unwrap(), "1969-12-31T23:59:60.999999999+00:00");
    assert!(text(58, 1_000_000_000).is_none());
    assert!(text(59, 2_000_000_000).is_none());
    assert_eq!(text(-8_334_601_228_800, 0).unwrap(), "-262143-01-01T00:00:00+00:00");
    assert_eq!(text(8_210_266_876_799, 0).unwrap(), "+262142-12-31T23:59:59+00:00");
    assert!(text(-8_334_601_228_801, 0).is_none());
    assert!(text(8_210_266_876_800, 0).is_none());
}

#[test]
fn dates_have_texts() {
    let text = |days: i32| Date::new(days).map(|date| date.show());
    assert_eq!(text(0).unwrap(), "1970-01-01");
    assert_eq!(text(19_782).unwrap(), "2024-02-29");
    assert_eq!(text(-96_465_292).unwrap(), "-262143-01-01");
    assert_eq!(text(95_026_236).unwrap(), "+262142-12-31");
    assert!(text(-96_465_293).is_none());
    assert!(text(95_026_237).is_none());
}
