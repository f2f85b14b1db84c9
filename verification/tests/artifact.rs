//! Analyses of downloaded files.
use anthelion::artifact::{
    analyze_download, assign_analyses, first_non_empty, same_key, searches_archive,
    settle_download, ArtifactAnalysis, FileFacts, MatchedInstaller,
};
use anthelion::download::DownloadedFile;
use anthelion::error::ErrorStatus;
use anthelion::manifest::{
    AppsAndFeaturesEntry, Architecture, Installer, InstallerType, NestedInstallerFile, Scope,
    Switches,
};
use anthelion::source::{
    normalize_installer_inputs, parse_architecture, parse_installer_url, parse_sources, settle_url,
    AnalysisKey,
};
use anthelion::time::Date;
use anthelion::types::{AnalyzedArtifact, InstallerInput, InstallerSource};
use anthelion::unique::unique_sources;

fn installer(architecture: Architecture) -> Installer {
    Installer {
        locale: None,
        architecture,
        installer_type: None,
        nested_installer_type: None,
        nested_installer_files: Vec::new(),
        scope: None,
        url: String::new(),
        sha_256: String::new(),
        release_date: None,
        product_code: None,
        apps_and_features_entries: Vec::new(),
        install_location: None,
        all_install_modes: false,
        switches: Switches::none(),
        expected_return_codes: Vec::new(),
    }
}

fn file(url: &str, file_name: &str) -> DownloadedFile {
    DownloadedFile {
        url: parse_installer_url(url).unwrap(),
        sha_256: "HASH".to_owned(),
        file_name: file_name.to_owned(),
        last_modified: Date::new(19849),
    }
}

fn facts(archive: Option<Vec<&str>>) -> FileFacts {
    FileFacts {
        file_version: Some("1.0".to_owned()),
        product_version: None,
        installers: vec![installer(Architecture::X86)],
        archive: archive.map(|files| files.into_iter().map(str::to_owned).collect()),
    }
}

fn source(url: &str, architecture: Option<&str>, matches: Vec<&str>) -> InstallerSource {
    InstallerSource {
        url: url.to_owned(),
        architecture: architecture.map(str::to_owned),
        nested_installer_matches: Some(matches.into_iter().map(str::to_owned).collect()),
    }
}

fn analysis(url: &str) -> ArtifactAnalysis {
    ArtifactAnalysis {
        url: url.to_owned(),
        sha256: "HASH".to_owned(),
        release_date: None,
        file_version: None,
        product_version: None,
        installers: vec![installer(Architecture::X86), installer(Architecture::X64)],
        possible_installer_files: Vec::new(),
    }
}

#[test]
fn a_bare_url_is_a_source_without_more() {
    let sources = normalize_installer_inputs(vec![
        InstallerInput::Url("https://example.com/a".to_owned()),
        InstallerInput::Source(source("https://example.com/b", Some("x86"), vec!["m"])),
    ]);
    assert_eq!(sources.len(), 2);
    assert_eq!(sources[0].url, "https://example.com/a");
    assert_eq!(sources[0].architecture, None);
    assert_eq!(sources[0].nested_installer_matches, None);
    assert_eq!(sources[1].architecture, Some("x86".to_owned()));
}

#[test]
fn names_architectures() {
    let cases = vec![
        ("x86", Architecture::X86),
        ("x64", Architecture::X64),
        ("arm", Architecture::Arm),
        ("arm64", Architecture::Arm64),
        ("neutral", Architecture::Neutral),
    ];
    for (name, architecture) in cases {
        assert_eq!(parse_architecture(name).unwrap(), architecture);
        assert_eq!(architecture.as_str(), name);
    }
    assert_eq!(
        parse_architecture("X64").unwrap_err().message(),
        "[INVALID_ARGUMENT] Invalid installer architecture \"X64\""
    );
}

#[test]
fn refuses_urls_that_are_none() {
    assert_eq!(
        parse_installer_url(" \n").unwrap_err().message(),
        "[INVALID_ARGUMENT] Installer URLs must not be empty"
    );
    assert!(parse_installer_url("example")
        .unwrap_err()
        .message()
        .starts_with("[INVALID_ARGUMENT] Invalid installer URL \"example\": "));
}

#[test]
fn decodes_urls() {
    let url = parse_installer_url("https://example.com/a%7Cb%2B.exe").unwrap();
    assert_eq!(url.as_str(), "https://example.com/a|b+.exe");
    assert_eq!(url.original_url(), "https://example.com/a%7Cb%2B.exe");
    assert_eq!(url.host, Some("example.com".to_owned()));
}

#[test]
fn settles_a_url_by_its_two_readings() {
    let decoded = || Ok(("https://h/a b".to_owned(), Some("h".to_owned())));
    let url = settle_url("u", decoded(), Ok("https://h/a%20b".to_owned())).unwrap();
    assert_eq!(url.as_str(), "https://h/a b");
    assert_eq!(url.original_url(), "https://h/a%20b");
    assert_eq!(url.override_architecture(), None);
    assert_eq!(
        settle_url("u", Err("bad".to_owned()), Ok("x".to_owned())).unwrap_err().message(),
        "[INVALID_ARGUMENT] Invalid installer URL \"u\": bad"
    );
    assert_eq!(
        settle_url("u", decoded(), Err("worse".to_owned())).unwrap_err().message(),
        "[INVALID_ARGUMENT] Invalid installer URL \"u\": worse"
    );
}

#[test]
fn refuses_no_source() {
    assert_eq!(
        parse_sources(Vec::new()).unwrap_err().message(),
        "[INVALID_ARGUMENT] At least one installer is required"
    );
    assert!(parse_sources(vec![source("https://example.com/a", Some("x32"), vec![])]).is_err());
}

#[test]
fn downloads_each_url_once_for_each_set_of_matches() {
    let sources = parse_sources(vec![
        source("https://example.com/a.zip", None, vec!["x"]),
        source("https://example.com/b.zip", None, vec!["x"]),
        source("https://example.com/a.zip", Some("arm64"), vec!["x"]),
        source("https://example.com/a.zip", None, vec!["y"]),
    ])
    .unwrap();

    let unique = unique_sources(&sources);

    let found: Vec<(&str, &str, usize)> = unique
        .iter()
        .map(|(key, at)| (key.url.as_str(), key.nested_installer_matches[0].as_str(), *at))
        .collect();
    // A later source takes the place of an earlier one with the same key.
    assert_eq!(
        found,
        vec![
            ("https://example.com/a.zip", "x", 2),
            ("https://example.com/b.zip", "x", 1),
            ("https://example.com/a.zip", "y", 3),
        ]
    );
}

#[test]
fn keys_are_compared_by_both_parts() {
    let key = |url: &str, matches: Vec<&str>| AnalysisKey {
        url: url.to_owned(),
        nested_installer_matches: matches.into_iter().map(str::to_owned).collect(),
    };
    assert!(same_key(&key("u", vec!["a"]), &key("u", vec!["a"])));
    assert!(!same_key(&key("u", vec!["a"]), &key("u", vec!["b"])));
    assert!(!same_key(&key("u", vec!["a"]), &key("u", vec!["a", "a"])));
    assert!(!same_key(&key("u", vec![]), &key("v", vec![])));
}

#[test]
fn assigns_analyses_to_their_sources() {
    let sources = parse_sources(vec![
        source("https://example.com/a", Some("arm64"), vec![]),
        source("https://example.com/b", None, vec![]),
        source("https://example.com/a", None, vec![]),
    ])
    .unwrap();
    let analyzed = vec![
        (sources[1].key(), analysis("https://mirror.example.com/b")),
        (sources[0].key(), analysis("https://mirror.example.com/a")),
    ];

    let assigned = assign_analyses(&sources, &analyzed).unwrap();

    let urls: Vec<&str> = assigned.iter().map(|a| a.url.as_str()).collect();
    assert_eq!(
        urls,
        vec![
            "https://mirror.example.com/a",
            "https://mirror.example.com/b",
            "https://mirror.example.com/a",
        ]
    );
    let architectures: Vec<Architecture> =
        assigned.iter().flat_map(|a| a.installers.iter().map(|i| i.architecture)).collect();
    assert_eq!(
        architectures,
        vec![
            Architecture::Arm64,
            Architecture::Arm64,
            Architecture::X86,
            Architecture::X64,
            Architecture::X86,
            Architecture::X64,
        ]
    );
}

#[test]
fn a_source_without_an_analysis_is_a_failure() {
    let sources = parse_sources(vec![source("https://example.com/a|b", None, vec![])]).unwrap();
    let error = assign_analyses(&sources, &Vec::new()).unwrap_err();
    assert_eq!(error.status(), ErrorStatus::GenericFailure);
    assert_eq!(
        error.message(),
        "[ANALYSIS_FAILED] No analysis was returned for https://example.com/a|b"
    );
}

#[test]
fn finds_the_first_text_that_is_not_empty() {
    assert_eq!(first_non_empty(&vec!["", "  ", " a ", "b"]), Some("a".to_owned()));
    assert_eq!(first_non_empty(&vec!["", "\t"]), None);
    assert_eq!(first_non_empty(&Vec::new()), None);
}

#[test]
fn searches_archives_where_there_are_matches() {
    let matches = vec!["a".to_owned()];
    assert!(searches_archive(&facts(Some(vec![])), &matches));
    assert!(!searches_archive(&facts(None), &matches));
    assert!(!searches_archive(&facts(Some(vec![])), &Vec::new()));
}

#[test]
fn places_the_installers_of_a_download() {
    let analysis =
        analyze_download(file("https://example.com/app-arm64.exe", "app.exe"), Some(facts(None)), None)
            .unwrap();
    assert_eq!(analysis.url, "https://example.com/app-arm64.exe");
    assert_eq!(analysis.sha256, "HASH");
    assert_eq!(analysis.release_date, Date::new(19849));
    assert_eq!(analysis.file_version, Some("1.0".to_owned()));
    assert_eq!(analysis.product_version, None);
    assert!(analysis.possible_installer_files.is_empty());
    let installer = &analysis.installers[0];
    assert_eq!(installer.architecture, Architecture::Arm64);
    assert_eq!(installer.url, "https://example.com/app-arm64.exe");
    assert_eq!(installer.sha_256, "HASH");
    assert_eq!(installer.release_date, Date::new(19849));
}

#[test]
fn what_was_found_in_an_archive_comes_first() {
    let found = |file: Option<&str>, product: Option<&str>| MatchedInstaller {
        file_version: file.map(str::to_owned),
        product_version: product.map(str::to_owned),
        installer: installer(Architecture::Arm),
    };
    let settle = |matched: Option<Option<Vec<MatchedInstaller>>>| {
        settle_download(
            file("https://example.com/a.zip", "a.zip"),
            Some(facts(Some(vec!["x.exe", "y.exe"]))),
            matched,
            None,
        )
    };

    let analysis = settle(Some(Some(vec![
        found(None, Some(" ")),
        found(Some(" 2.0 "), Some("3.0")),
        found(Some("4.0"), None),
    ])))
    .unwrap();
    assert_eq!(analysis.file_version, Some("2.0".to_owned()));
    assert_eq!(analysis.product_version, Some("3.0".to_owned()));
    assert_eq!(analysis.installers.len(), 3);
    assert_eq!(analysis.installers[0].architecture, Architecture::Arm);
    assert_eq!(analysis.possible_installer_files, vec!["x.exe", "y.exe"]);

    let analysis = settle(Some(Some(vec![found(None, None)]))).unwrap();
    assert_eq!(analysis.file_version, Some("1.0".to_owned()));
    assert_eq!(analysis.installers.len(), 1);

    let analysis = settle(None).unwrap();
    assert_eq!(analysis.installers[0].architecture, Architecture::X86);

    assert_eq!(
        settle(Some(None)).unwrap_err().message(),
        "[ANALYSIS_FAILED] Failed to analyze matching installers in a.zip"
    );
    assert_eq!(
        settle_download(file("https://example.com/a.zip", "a.zip"), None, None, None)
            .unwrap_err()
            .message(),
        "[ANALYSIS_FAILED] Failed to analyze a.zip"
    );
}

#[test]
fn shows_an_analysis() {
    let mut shown = installer(Architecture::Arm64);
    shown.locale = Some("en-US".to_owned());
    shown.installer_type = Some(InstallerType::Zip);
    shown.nested_installer_type = Some(InstallerType::Portable);
    shown.nested_installer_files = vec![NestedInstallerFile {
        relative_file_path: "a.exe".to_owned(),
        portable_command_alias: None,
    }];
    shown.scope = Some(Scope::User);
    shown.apps_and_features_entries = vec![AppsAndFeaturesEntry {
        display_name: Some("Name".to_owned()),
        publisher: None,
        display_version: Some("1".to_owned()),
        product_code: Some("{P}".to_owned()),
        upgrade_code: None,
        installer_type: Some(InstallerType::Nullsoft),
    }];
    let mut artifact = analysis("https://example.com/a.zip");
    artifact.installers = vec![shown];
    artifact.product_version = Some("9".to_owned());
    artifact.release_date = Date::new(19724);

    let artifact = AnalyzedArtifact::from_analysis(&artifact);

    assert_eq!(artifact.url, "https://example.com/a.zip");
    assert_eq!(artifact.sha256, "HASH");
    assert_eq!(artifact.release_date, Some("2024-01-02".to_owned()));
    assert_eq!(artifact.versions.file, None);
    assert_eq!(artifact.versions.product, Some("9".to_owned()));
    let installer = &artifact.installers[0];
    assert_eq!(installer.locale, Some("en-US".to_owned()));
    assert_eq!(installer.architecture, "arm64");
    assert_eq!(installer.installer_type, Some("zip".to_owned()));
    assert_eq!(installer.nested_installer_type, Some("portable".to_owned()));
    assert_eq!(installer.nested_installer_files, vec!["a.exe"]);
    assert_eq!(installer.scope, Some("user".to_owned()));
    let entry = &installer.apps_and_features_entries[0];
    assert_eq!(entry.display_name, Some("Name".to_owned()));
    assert_eq!(entry.publisher, None);
    assert_eq!(entry.display_version, Some("1".to_owned()));
    assert_eq!(entry.product_code, Some("{P}".to_owned()));
    assert_eq!(entry.upgrade_code, None);
    assert_eq!(entry.installer_type, Some("nullsoft".to_owned()));
}
