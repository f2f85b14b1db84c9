//! What callers hand over and get back.
use vstd::prelude::*;

verus! {

/// Options for updating a version.
#[derive(Debug)]
pub struct UpdateVersionOptions {
    /// The unique identifier of the package, such as `Microsoft.VisualStudioCode`.
    pub package_identifier: String,
    /// The new package version, or one of `displayVersion`, `productVersion` and `fileVersion`, which
    /// take it from the analysis of the installers.
    pub version: String,
    /// The URLs of the installers, which may end in `|architecture`.
    pub urls: Vec<String>,
    /// Patterns that pick the installers inside archives.
    pub installer_matches: Option<Vec<String>>,
    /// The URL of the release notes.
    pub release_notes_url: Option<String>,
    /// The text of the release notes.
    pub release_notes: Option<String>,
    /// Whether no pull request is submitted.
    pub dry_run: Option<bool>,
    /// The version to replace, or `latest`.
    pub replace: Option<String>,
    /// Whether the package is looked for under the fonts.
    pub font: Option<bool>,
    /// A GitHub token.
    pub token: Option<String>,
}

/// Options for looking for a pull request.
#[derive(Debug)]
pub struct GetExistingPullRequestOptions {
    /// The unique identifier of the package.
    pub package_identifier: String,
    /// The package version to search for.
    pub version: String,
    /// A GitHub token.
    pub token: Option<String>,
    /// Whether the pull requests of other users are ignored.
    pub ignore_pull_requests_created_by_other_users: Option<bool>,
}

/// A pull request that exists.
#[derive(Debug)]
pub struct ExistingPullRequestResult {
    /// The URL of the pull request.
    pub pull_request_url: String,
    /// The login of the user or bot that created it.
    pub created_by: String,
    /// Whether the authenticated user created it.
    pub created_by_authenticated_user: bool,
    /// Its state: `open`, `closed` or `merged`.
    pub state: String,
    /// When it was created.
    pub created_at: String,
}

/// The result of updating a version.
#[derive(Debug)]
pub struct UpdateVersionResult {
    /// The URL of the pull request, if one was submitted.
    pub pull_request_url: Option<String>,
    /// The URL of its diff, if one was submitted.
    pub diff_view_url: Option<String>,
    /// The generated manifests.
    pub changes: Vec<ManifestChange>,
    /// The identifier of the package.
    pub package_identifier: String,
    /// The version that was created.
    pub version: String,
}

/// A changed manifest file.
#[derive(Debug)]
pub struct ManifestChange {
    /// Its path in the repository.
    pub path: String,
    /// Its YAML.
    pub content: String,
}

/// The result of analyzing an installer.
#[derive(Debug)]
pub struct AnalyzeInstallerResult {
    /// What was detected.
    pub analysis: Vec<InstallerAnalysis>,
    /// The `FileVersion` of the version information.
    pub file_version: Option<String>,
    /// The `ProductVersion` of the version information.
    pub product_version: Option<String>,
}

/// What was detected of an installer.
#[derive(Debug)]
pub struct InstallerAnalysis {
    pub installer_locale: Option<String>,
    pub architecture: String,
    pub installer_type: Option<String>,
    pub nested_installer_type: Option<String>,
    pub nested_installer_files: Vec<NestedInstallerFileAnalysis>,
    pub apps_and_features_entries: Vec<AppsAndFeaturesEntryAnalysis>,
    pub scope: Option<String>,
    pub installer_url: String,
    pub installer_sha256: String,
    pub release_date: Option<String>,
}

/// What was detected of an entry of Apps and Features.
#[derive(Debug)]
pub struct AppsAndFeaturesEntryAnalysis {
    pub display_name: Option<String>,
    pub publisher: Option<String>,
    pub display_version: Option<String>,
    pub product_code: Option<String>,
    pub upgrade_code: Option<String>,
    pub installer_type: Option<String>,
}

/// What was detected of a file inside an archive.
#[derive(Debug)]
pub struct NestedInstallerFileAnalysis {
    /// Its path in the archive.
    pub relative_file_path: String,
}

/// Where a version comes from: `explicit`, with a value, or `display`, `product` or `file`.
#[derive(Debug)]
pub struct VersionSelection {
    pub source: String,
    pub value: Option<String>,
}

/// A version that is given as it is, or chosen.
#[derive(Debug)]
pub enum VersionInput {
    Text(String),
    Selection(VersionSelection),
}

/// Which version is replaced: `latest`, or `version`, with a value.
#[derive(Debug)]
pub struct ReplacementSelection {
    pub target: String,
    pub value: Option<String>,
}

/// An installer to analyze.
#[derive(Debug)]
pub struct InstallerSource {
    pub url: String,
    pub architecture: Option<String>,
    pub nested_installer_matches: Option<Vec<String>>,
}

/// An installer that is given by its URL alone, or in full.
#[derive(Debug)]
pub enum InstallerInput {
    Url(String),
    Source(InstallerSource),
}

/// Release notes, by their text and their URL.
#[derive(Debug)]
pub struct ReleaseNotesInput {
    pub text: Option<String>,
    pub url: Option<String>,
}

/// What a caller asks of an update.
#[derive(Debug)]
pub struct UpdatePackageRequest {
    /// `generate` or `submit`.
    pub mode: String,
    pub package_identifier: String,
    pub version: VersionInput,
    pub installers: Vec<InstallerInput>,
    pub release_notes: Option<ReleaseNotesInput>,
    pub replace: Option<ReplacementSelection>,
    /// `auto`, `standard` or `font`.
    pub package_kind: Option<String>,
}

/// The package that was updated.
#[derive(Debug)]
pub struct UpdatedPackage {
    pub identifier: String,
    pub version: String,
}

/// A generated manifest.
#[derive(Debug)]
pub struct GeneratedManifest {
    pub path: String,
    pub yaml: String,
}

/// A pull request that was created.
#[derive(Debug)]
pub struct CreatedPullRequest {
    pub url: String,
    pub diff_url: String,
}

/// What an update came to.
#[derive(Debug)]
pub struct UpdatePackageResult {
    pub package: UpdatedPackage,
    pub manifests: Vec<GeneratedManifest>,
    pub pull_request: Option<CreatedPullRequest>,
}

/// The versions in the version information of a file.
#[derive(Debug)]
pub struct DetectedVersions {
    pub file: Option<String>,
    pub product: Option<String>,
}

/// A file that was analyzed.
#[derive(Debug)]
pub struct AnalyzedArtifact {
    pub url: String,
    pub sha256: String,
    pub release_date: Option<String>,
    pub versions: DetectedVersions,
    pub installers: Vec<AnalyzedInstaller>,
}

/// An installer that was found in a file.
#[derive(Debug)]
pub struct AnalyzedInstaller {
    pub locale: Option<String>,
    pub architecture: String,
    pub installer_type: Option<String>,
    pub nested_installer_type: Option<String>,
    pub nested_installer_files: Vec<String>,
    pub apps_and_features_entries: Vec<AppsAndFeaturesEntryAnalysis>,
    pub scope: Option<String>,
}

} // verus!
