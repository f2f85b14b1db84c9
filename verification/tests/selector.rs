//! Which version is created, and which it replaces.
use anthelion::error::{AnthelionError, ErrorStatus};
use anthelion::selector::{
    is_latest, missing_version_message, package_version_or, parse_replacement,
    parse_version_selector, resolve_replace_version, VersionSelector,
};
use anthelion::types::{ReplacementSelection, VersionInput, VersionSelection};
use anthelion::versions::{is_listed, ordered_versions};

fn selection(source: &str, value: Option<&str>) -> VersionInput {
    VersionInput::Selection(VersionSelection {
        source: source.to_owned(),
        value: value.map(str::to_owned),
    })
}

fn replacement(target: &str, value: Option<&str>) -> Option<ReplacementSelection> {
    Some(ReplacementSelection {
        target: target.to_owned(),
        value: value.map(str::to_owned),
    })
}

fn reason<T>(result: Result<T, AnthelionError>) -> String {
    match result {
        Err(AnthelionError::InvalidArgument(reason)) => reason,
        _ => panic!("expected an invalid argument"),
    }
}

#[test]
fn version_selection_requires_only_the_relevant_value() {
    assert!(matches!(
        parse_version_selector(VersionInput::Selection(VersionSelection {
            source: "explicit".to_owned(),
            value: Some("1.2.3".to_owned()),
        }))
        .unwrap(),
        VersionSelector::Explicit(_)
    ));
    assert!(parse_version_selector(VersionInput::Selection(VersionSelection {
        source: "product".to_owned(),
        value: Some("1.2.3".to_owned()),
    }))
    .is_err());
}

#[test]
fn latest_replacement_has_no_magic_string_in_the_public_api() {
    let replacement = parse_replacement(Some(ReplacementSelection {
        target: "latest".to_owned(),
        value: None,
    }))
    .unwrap()
    .unwrap();

    assert!(is_latest(&replacement));
}

#[test]
fn a_text_is_an_explicit_version() {
    match parse_version_selector(VersionInput::Text("  1.2.3 ".to_owned())).unwrap() {
        VersionSelector::Explicit(version) => assert_eq!(version, "1.2.3"),
        _ => panic!("expected an explicit version"),
    }
}

#[test]
fn each_source_has_its_selector() {
    assert!(matches!(
        parse_version_selector(selection("display", None)).unwrap(),
        VersionSelector::DisplayVersion
    ));
    assert!(matches!(
        parse_version_selector(selection("product", None)).unwrap(),
        VersionSelector::ProductVersion
    ));
    assert!(matches!(
        parse_version_selector(selection("file", None)).unwrap(),
        VersionSelector::FileVersion
    ));
}

#[test]
fn refuses_selections_that_cannot_be_used() {
    let missing = "version.value is required when version.source is explicit";
    assert_eq!(reason(parse_version_selector(selection("explicit", None))), missing);
    assert_eq!(reason(parse_version_selector(selection("explicit", Some(" \t")))), missing);
    assert_eq!(reason(parse_version_selector(VersionInput::Text(String::new()))), missing);
    for source in vec!["display", "product", "file"] {
        assert_eq!(
            reason(parse_version_selector(selection(source, Some("")))),
            "version.value may only be set when version.source is explicit"
        );
    }
    assert_eq!(
        reason(parse_version_selector(selection("oth\"er", None))),
        "Invalid version source \"oth\\\"er\""
    );
    assert_eq!(
        reason(parse_version_selector(selection("explicit", Some("1/2")))),
        "Invalid package version: Package version contains invalid character '/'"
    );
    assert_eq!(
        reason(parse_version_selector(VersionInput::Text("1".repeat(129)))),
        "Invalid package version: Package version cannot be more than 128 characters long"
    );
}

#[test]
fn refuses_replacements_that_cannot_be_used() {
    assert_eq!(
        reason(parse_replacement(replacement("latest", Some("1.0")))),
        "replace.value may only be set when replace.target is version"
    );
    let missing = "replace.value is required when replace.target is version";
    assert_eq!(reason(parse_replacement(replacement("version", None))), missing);
    assert_eq!(reason(parse_replacement(replacement("version", Some("  ")))), missing);
    assert_eq!(
        reason(parse_replacement(replacement("version", Some("a:b")))),
        "Invalid replacement version: Package version contains invalid character ':'"
    );
    assert_eq!(
        reason(parse_replacement(replacement("oldest", None))),
        "Invalid replacement target \"oldest\""
    );
    assert_eq!(parse_replacement(None).unwrap(), None);
    assert_eq!(
        parse_replacement(replacement("version", Some(" 1.0 "))).unwrap(),
        Some("1.0".to_owned())
    );
}

#[test]
fn an_invalid_version_is_the_callers_fault() {
    let error = package_version_or("", "Invalid ProductVersion: ").unwrap_err();
    assert_eq!(error.status(), ErrorStatus::InvalidArg);
    assert_eq!(
        error.message(),
        "[INVALID_ARGUMENT] Invalid ProductVersion: Package version cannot be empty"
    );
    assert_eq!(package_version_or(" 2.0\u{a0}", "").unwrap(), "2.0");
}

#[test]
fn puts_versions_in_order() {
    let ordered = |versions: Vec<&str>| -> Vec<String> {
        ordered_versions(&versions.into_iter().map(str::to_owned).collect())
    };
    assert_eq!(ordered(vec!["1.10", "1.9", "1.10.0", "unknown", "1.9-beta"]), vec![
        "unknown", "1.9-beta", "1.9", "1.10",
    ]);
    assert!(ordered(Vec::new()).is_empty());
    let versions = vec!["1.0".to_owned(), "2.0".to_owned()];
    assert!(is_listed(&versions, "2"));
    assert!(!is_listed(&versions, "3"));
}

#[test]
fn resolves_the_replaced_version() {
    let versions = vec!["1.0".to_owned(), "1.2".to_owned()];
    let resolve = |replace: Option<&str>, version: &str| {
        resolve_replace_version(&replace.map(str::to_owned), &versions, "1.2", version)
    };

    assert_eq!(resolve(None, "2.0"), Ok(None));
    assert_eq!(resolve(Some("latest"), "2.0"), Ok(Some("1.2".to_owned())));
    assert_eq!(resolve(Some("LATEST"), "2.0"), Ok(Some("1.2".to_owned())));
    assert_eq!(resolve(Some("1.0"), "2.0"), Ok(Some("1.0".to_owned())));
    // Versions are compared as versions.
    assert_eq!(resolve(Some("1.0.0"), "2.0"), Ok(Some("1.0.0".to_owned())));
    // A version does not replace itself.
    assert_eq!(resolve(Some("latest"), "1.2"), Ok(None));
    assert_eq!(resolve(Some("3.0"), "3.0"), Ok(None));
    assert_eq!(
        resolve(Some("1.3"), "2.0"),
        Err("Replacement version 1.3 does not exist. The closest version is 1.2".to_owned())
    );
    let unordered = vec!["1.2".to_owned(), "1.0".to_owned()];
    assert_eq!(
        resolve_replace_version(&Some("1.0.0".to_owned()), &unordered, "1.2", "2.0"),
        Ok(Some("1.0.0".to_owned()))
    );
    assert_eq!(
        resolve_replace_version(&Some("1.3".to_owned()), &unordered, "1.2", "2.0"),
        Err("Replacement version 1.3 does not exist. The closest version is 1.2".to_owned())
    );
    assert_eq!(
        resolve_replace_version(&Some("1.3".to_owned()), &Vec::new(), "1.2", "2.0"),
        Err("Replacement version 1.3 does not exist".to_owned())
    );
    assert_eq!(
        missing_version_message("1", &Some("2".to_owned())),
        "Replacement version 1 does not exist. The closest version is 2"
    );
}

#[test]
fn latest_is_told_in_any_case() {
    assert!(is_latest("LaTeSt"));
    assert!(!is_latest("latest "));
    assert!(!is_latest("1.0"));
}
