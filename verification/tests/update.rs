//! Planning an update, and what comes of it.
use anthelion::artifact::ArtifactAnalysis;
use anthelion::error::{AnthelionError, ErrorStatus};
use anthelion::manifest::{AppsAndFeaturesEntry, Architecture, Installer, Switches};
use anthelion::selector::VersionSelector;
use anthelion::types::{
    InstallerInput, InstallerSource, ReleaseNotesInput, ReplacementSelection, UpdatePackageRequest,
    VersionInput, VersionSelection,
};
use anthelion::update::{
    collect_installers, github_url, latest_version, next_update_step, parse_identifier, plan_update,
    possible_files, resolve_version, update_result, UpdateStep,
};

fn request() -> UpdatePackageRequest {
    UpdatePackageRequest {
        mode: "generate".to_owned(),
        package_identifier: "Package.Identifier".to_owned(),
        version: VersionInput::Text("1.2.3".to_owned()),
        installers: vec![InstallerInput::Url("https://example.com/app.exe".to_owned())],
        release_notes: None,
        replace: None,
        package_kind: None,
    }
}

fn refusal(request: UpdatePackageRequest) -> String {
    let error = plan_update(request).unwrap_err();
    assert_eq!(error.status(), ErrorStatus::InvalidArg);
    match error {
        AnthelionError::InvalidArgument(reason) => reason,
        _ => unreachable!(),
    }
}

fn installer(url: &str, display_versions: Vec<Option<&str>>) -> Installer {
    Installer {
        locale: None,
        architecture: Architecture::X64,
        installer_type: None,
        nested_installer_type: None,
        nested_installer_files: Vec::new(),
        scope: None,
        url: url.to_owned(),
        sha_256: String::new(),
        release_date: None,
        product_code: None,
        apps_and_features_entries: display_versions
            .into_iter()
            .map(|version| AppsAndFeaturesEntry {
                display_name: None,
                publisher: None,
                display_version: version.map(str::to_owned),
                product_code: None,
                upgrade_code: None,
                installer_type: None,
            })
            .collect(),
        install_location: None,
        all_install_modes: false,
        switches: Switches::none(),
        expected_return_codes: Vec::new(),
    }
}

fn analysis(
    url: &str,
    file: Option<&str>,
    product: Option<&str>,
    installers: Vec<Installer>,
    files: Vec<&str>,
) -> ArtifactAnalysis {
    ArtifactAnalysis {
        url: url.to_owned(),
        sha256: String::new(),
        release_date: None,
        file_version: file.map(str::to_owned),
        product_version: product.map(str::to_owned),
        installers,
        possible_installer_files: files.into_iter().map(str::to_owned).collect(),
    }
}

#[test]
fn plans_an_update() {
    let plan = plan_update(UpdatePackageRequest {
        mode: "submit".to_owned(),
        installers: vec![
            InstallerInput::Url(" https://example.com/a|b.exe".to_owned()),
            InstallerInput::Source(InstallerSource {
                url: "https://github.com/o/r/releases/download/1/b.zip".to_owned(),
                architecture: Some("arm64".to_owned()),
                nested_installer_matches: Some(vec!["b.exe".to_owned()]),
            }),
        ],
        release_notes: Some(ReleaseNotesInput {
            text: Some("  notes  ".to_owned()),
            url: Some("https://example.com/notes".to_owned()),
        }),
        replace: Some(ReplacementSelection { target: "latest".to_owned(), value: None }),
        package_kind: Some("font".to_owned()),
        ..request()
    })
    .unwrap();

    assert!(plan.submit);
    assert_eq!(plan.package_identifier, "Package.Identifier");
    assert!(matches!(plan.version_selector, VersionSelector::Explicit(_)));
    assert_eq!(plan.installers.len(), 2);
    assert_eq!(plan.installers[0].architecture, None);
    assert_eq!(plan.installers[1].architecture, Some("arm64".to_owned()));
    assert_eq!(plan.urls[0].as_str(), "https://example.com/a|b.exe");
    assert_eq!(plan.urls[0].original_url(), "https://example.com/a%7Cb.exe");
    assert_eq!(plan.release_notes_url, Some("https://example.com/notes".to_owned()));
    assert_eq!(plan.release_notes, Some("notes".to_owned()));
    assert_eq!(plan.replace, Some("latest".to_owned()));
    assert_eq!(plan.font, Some(true));
    assert_eq!(
        github_url(&plan.urls).unwrap().as_str(),
        "https://github.com/o/r/releases/download/1/b.zip"
    );

    let plain = plan_update(request()).unwrap();
    assert!(!plain.submit);
    assert_eq!(plain.font, None);
    assert_eq!(plain.release_notes, None);
    assert!(github_url(&plain.urls).is_none());
}

#[test]
fn tells_the_kind_of_the_package() {
    let kind = |kind: &str| {
        plan_update(UpdatePackageRequest { package_kind: Some(kind.to_owned()), ..request() })
            .map(|plan| plan.font)
            .ok()
    };
    assert_eq!(kind("auto"), Some(None));
    assert_eq!(kind("standard"), Some(Some(false)));
    assert_eq!(kind("font"), Some(Some(true)));
    assert_eq!(kind("Font"), None);
}

#[test]
fn refuses_requests_that_cannot_be_used() {
    assert_eq!(
        refusal(UpdatePackageRequest { mode: "dry".to_owned(), ..request() }),
        "Invalid update mode \"dry\""
    );
    assert!(refusal(UpdatePackageRequest { package_identifier: "nodot".to_owned(), ..request() })
        .starts_with("Invalid package identifier: "));
    assert_eq!(
        refusal(UpdatePackageRequest {
            version: VersionInput::Selection(VersionSelection {
                source: "x".to_owned(),
                value: None,
            }),
            ..request()
        }),
        "Invalid version source \"x\""
    );
    assert_eq!(
        refusal(UpdatePackageRequest { installers: Vec::new(), ..request() }),
        "At least one URL is required"
    );
    assert_eq!(
        refusal(UpdatePackageRequest {
            installers: vec![InstallerInput::Url("  ".to_owned())],
            ..request()
        }),
        "Installer URLs must not be empty"
    );
    assert!(refusal(UpdatePackageRequest {
        installers: vec![InstallerInput::Url("no url".to_owned())],
        ..request()
    })
    .starts_with("Invalid installer URL \"no url\": "));
    assert!(refusal(UpdatePackageRequest {
        release_notes: Some(ReleaseNotesInput { text: None, url: Some("no url".to_owned()) }),
        ..request()
    })
    .starts_with("Invalid release notes URL: "));
    assert!(refusal(UpdatePackageRequest {
        release_notes: Some(ReleaseNotesInput { text: Some("  ".to_owned()), url: None }),
        ..request()
    })
    .starts_with("Invalid release notes: "));
    assert_eq!(
        refusal(UpdatePackageRequest {
            replace: Some(ReplacementSelection { target: "all".to_owned(), value: None }),
            ..request()
        }),
        "Invalid replacement target \"all\""
    );
    assert_eq!(
        refusal(UpdatePackageRequest { package_kind: Some("tool".to_owned()), ..request() }),
        "Invalid package kind \"tool\""
    );
}

#[test]
fn the_first_fault_is_told() {
    assert_eq!(
        refusal(UpdatePackageRequest {
            mode: "x".to_owned(),
            package_identifier: String::new(),
            version: VersionInput::Text(String::new()),
            installers: Vec::new(),
            release_notes: None,
            replace: None,
            package_kind: Some("x".to_owned()),
        }),
        "Invalid update mode \"x\""
    );
    assert_eq!(
        refusal(UpdatePackageRequest {
            version: VersionInput::Text(String::new()),
            installers: Vec::new(),
            ..request()
        }),
        "version.value is required when version.source is explicit"
    );
}

#[test]
fn keeps_package_identifiers() {
    assert_eq!(parse_identifier("Microsoft.VisualStudioCode").unwrap(), "Microsoft.VisualStudioCode");
    assert!(parse_identifier("").is_err());
}

#[test]
fn the_latest_version_is_the_highest() {
    let latest = |versions: Vec<&str>| {
        latest_version(&versions.into_iter().map(str::to_owned).collect()).unwrap()
    };
    assert_eq!(latest(vec!["1.0", "2.0"]), "2.0");
    assert_eq!(latest(vec!["1.10", "1.9", "1.2"]), "1.10");
    // Of versions that are the same the first is kept.
    assert_eq!(latest(vec!["2.0.0", "1.0", "2.0"]), "2.0.0");
    let error = latest_version(&Vec::new()).unwrap_err();
    assert_eq!(error.status(), ErrorStatus::GenericFailure);
    assert_eq!(error.message(), "[UPDATE_FAILED] No versions found for package");
}

#[test]
fn resolves_the_version_from_the_analysis() {
    let analyses = vec![
        analysis(
            "https://example.com/a",
            Some(" "),
            None,
            vec![installer("https://example.com/a", vec![None, Some("  ")])],
            Vec::new(),
        ),
        analysis(
            "https://example.com/b",
            Some(" 4.5 "),
            Some("6.7"),
            vec![installer("https://example.com/b", vec![Some(" 8.9 "), Some("10")])],
            Vec::new(),
        ),
    ];
    let resolve = |selector: VersionSelector| resolve_version(&selector, &analyses).unwrap();

    assert_eq!(resolve(VersionSelector::Explicit("1.2".to_owned())), "1.2");
    assert_eq!(resolve(VersionSelector::FileVersion), "4.5");
    assert_eq!(resolve(VersionSelector::ProductVersion), "6.7");
    assert_eq!(resolve(VersionSelector::DisplayVersion), "8.9");
}

#[test]
fn refuses_a_version_that_the_analysis_does_not_tell() {
    let none: Vec<ArtifactAnalysis> = Vec::new();
    let message = |selector: VersionSelector| resolve_version(&selector, &none).unwrap_err().message();
    assert_eq!(
        message(VersionSelector::ProductVersion),
        "[INVALID_ARGUMENT] version.source is product, but installer analysis found no ProductVersion"
    );
    assert_eq!(
        message(VersionSelector::FileVersion),
        "[INVALID_ARGUMENT] version.source is file, but installer analysis found no FileVersion"
    );
    assert_eq!(
        message(VersionSelector::DisplayVersion),
        "[INVALID_ARGUMENT] version.source is display, but installer analysis found no DisplayVersion"
    );

    let bad = vec![analysis(
        "u",
        Some("1?"),
        Some("2?"),
        vec![installer("u", vec![Some("3?")])],
        Vec::new(),
    )];
    let message = |selector: VersionSelector| resolve_version(&selector, &bad).unwrap_err().message();
    let fault = "Package version contains invalid character '?'";
    assert_eq!(
        message(VersionSelector::FileVersion),
        format!("[INVALID_ARGUMENT] Invalid FileVersion: {fault}")
    );
    assert_eq!(
        message(VersionSelector::ProductVersion),
        format!("[INVALID_ARGUMENT] Invalid ProductVersion: {fault}")
    );
    assert_eq!(
        message(VersionSelector::DisplayVersion),
        format!("[INVALID_ARGUMENT] Invalid DisplayVersion: {fault}")
    );
}

#[test]
fn collects_installers_in_order() {
    let analyses = vec![
        analysis("a", None, None, vec![installer("a", vec![]), installer("b", vec![])], vec![]),
        analysis("c", None, None, vec![], vec![]),
        analysis("d", None, None, vec![installer("c", vec![])], vec![]),
    ];
    let urls: Vec<String> = collect_installers(&analyses).into_iter().map(|i| i.url).collect();
    assert_eq!(urls, vec!["a", "b", "c"]);
}

#[test]
fn the_last_analysis_of_a_url_tells_its_files() {
    let analyses = vec![
        analysis("a", None, None, vec![], vec!["first.exe"]),
        analysis("b", None, None, vec![], vec!["other.exe"]),
        analysis("a", None, None, vec![], vec!["last.exe", "more.exe"]),
    ];
    assert_eq!(possible_files(&analyses, "a"), vec!["last.exe", "more.exe"]);
    assert_eq!(possible_files(&analyses, "b"), vec!["other.exe"]);
    assert!(possible_files(&analyses, "c").is_empty());
}

#[test]
fn shows_the_result() {
    let changes = vec![("manifests/a.yaml".to_owned(), "A: 1".to_owned())];
    let result = update_result(
        true,
        "A.B",
        "1.0",
        changes,
        Some(("https://github.com/pr/1".to_owned(), "https://diff/1".to_owned())),
    );
    assert_eq!(result.package.identifier, "A.B");
    assert_eq!(result.package.version, "1.0");
    assert_eq!(result.manifests.len(), 1);
    assert_eq!(result.manifests[0].path, "manifests/a.yaml");
    assert_eq!(result.manifests[0].yaml, "A: 1");
    let pull_request = result.pull_request.unwrap();
    assert_eq!(pull_request.url, "https://github.com/pr/1");
    assert_eq!(pull_request.diff_url, "https://diff/1");

    assert!(update_result(true, "A.B", "1.0", Vec::new(), None).pull_request.is_none());
}

#[test]
fn generating_never_submits() {
    let created = || Some(("https://github.com/pr/1".to_owned(), "https://diff/1".to_owned()));
    let changes = || vec![("manifests/a.yaml".to_owned(), "A: 1".to_owned())];
    let submits = |mode: &str| {
        plan_update(UpdatePackageRequest { mode: mode.to_owned(), ..request() }).unwrap().submit
    };

    let submit = submits("generate");
    assert_eq!(next_update_step(submit, &None), UpdateStep::Finish);
    let generated = update_result(submit, "A.B", "1.0", changes(), created());
    assert!(generated.pull_request.is_none());

    let submit = submits("submit");
    assert_eq!(next_update_step(submit, &None), UpdateStep::Submit);
    assert_eq!(next_update_step(submit, &created()), UpdateStep::Finish);
    let submitted = update_result(submit, "A.B", "1.0", changes(), created());
    assert!(submitted.pull_request.is_some());
    assert_eq!(submitted.manifests[0].path, generated.manifests[0].path);
    assert_eq!(submitted.manifests[0].yaml, generated.manifests[0].yaml);
}
