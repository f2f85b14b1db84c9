//! Installer sources.
use anthelion::source::{parse_installer_url, AnalysisKey};

#[test]
fn keeps_architecture_out_of_the_url() {
    let url = parse_installer_url("https://example.com/app.exe").unwrap();

    assert_eq!(url.as_str(), "https://example.com/app.exe");
    assert_eq!(url.override_architecture(), None);
}

#[test]
fn preserves_literal_url_pipes() {
    let url = parse_installer_url("https://example.com/download|stable/app.exe").unwrap();

    assert_eq!(url.as_str(), "https://example.com/download|stable/app.exe");
    assert_eq!(url.original_url(), "https://example.com/download%7Cstable/app.exe");
}

#[test]
fn nested_match_rules_are_part_of_the_analysis_cache_key() {
    let url = "https://example.com/archive.zip".to_owned();
    let first = AnalysisKey {
        url: url.clone(),
        nested_installer_matches: vec!["first.exe".to_owned()],
    };
    let second = AnalysisKey {
        url,
        nested_installer_matches: vec!["second.exe".to_owned()],
    };

    assert_ne!(first, second);
}
