//! The update of a package: what is asked for, and what comes of it.
use vstd::prelude::*;
use vstd::string::*;

use crate::artifact::{
    artifact_views, first_filled, first_non_empty, present_texts, str_texts, ArtifactAnalysis,
    ArtifactView,
};
use crate::error::{AnthelionError, AnthelionResult, ErrorCode, ErrorSays};
use crate::manifest::{
    copy_installers, copy_strings, entry_views, installer_views, AppsAndFeaturesEntry, EntryView,
    Installer, InstallerView,
};
use crate::selector::{
    package_version_or, parse_replacement, parse_version_selector, replacement_of, selector_of,
    version_or, SelectorView, VersionSelector,
};
use crate::source::{
    installer_url, normalize_installer_inputs, parse_installer_url, source_of, Url, UrlView,
};
use crate::text::{joined, opt_text, quoted, quoted_text, str_eq, texts, trim, trimmed};
use crate::types::{
    CreatedPullRequest, GeneratedManifest, InstallerInput, InstallerSource, ReleaseNotesInput,
    UpdatePackageRequest, UpdatePackageResult, UpdatedPackage,
};
use crate::versions::{highest, ordered_versions};
use crate::winget::{
    decoded_url, is_package_version, package_identifier_fault, parse_decoded_url,
    parse_package_identifier, parse_release_notes, release_notes_of,
};

verus! {

/// An update whose request is known to be valid.
#[derive(Debug)]
pub struct UpdatePlan {
    /// Whether a pull request is submitted.
    pub submit: bool,
    pub package_identifier: String,
    pub version_selector: VersionSelector,
    pub installers: Vec<InstallerSource>,
    pub urls: Vec<Url>,
    pub release_notes_url: Option<String>,
    pub release_notes: Option<String>,
    pub replace: Option<String>,
    /// Whether the package is a font, where that is known.
    pub font: Option<bool>,
}

/// What an [`UpdatePlan`] says.
#[verifier::ext_equal]
pub struct PlanView {
    pub submit: bool,
    pub package_identifier: Seq<char>,
    pub version_selector: SelectorView,
    pub installers: Seq<InstallerSource>,
    pub urls: Seq<UrlView>,
    pub release_notes_url: Option<Seq<char>>,
    pub release_notes: Option<Seq<char>>,
    pub replace: Option<Seq<char>>,
    pub font: Option<bool>,
}

/// What a list of URLs says.
pub open spec fn url_views(urls: Seq<Url>) -> Seq<UrlView> {
    urls.map_values(|url: Url| url@)
}

impl View for UpdatePlan {
    type V = PlanView;

    open spec fn view(&self) -> PlanView {
        PlanView {
            submit: self.submit,
            package_identifier: self.package_identifier@,
            version_selector: self.version_selector@,
            installers: self.installers@,
            urls: url_views(self.urls@),
            release_notes_url: opt_text(self.release_notes_url),
            release_notes: opt_text(self.release_notes),
            replace: opt_text(self.replace),
            font: self.font,
        }
    }
}

/// Whether a mode submits.
pub open spec fn mode_submits(mode: Seq<char>) -> Result<bool, ErrorSays> {
    if mode == "generate"@ {
        Ok(false)
    } else if mode == "submit"@ {
        Ok(true)
    } else {
        Err(ErrorSays::Invalid("Invalid update mode "@ + quoted_text(mode)))
    }
}

/// The package identifier that a text is.
pub open spec fn identifier_of(text: Seq<char>) -> Result<Seq<char>, ErrorSays> {
    match package_identifier_fault(text) {
        None => Ok(text),
        Some(fault) => Err(ErrorSays::Invalid("Invalid package identifier: "@ + fault)),
    }
}

/// The URLs of sources, or the error of the first that is not valid.
pub open spec fn source_urls(sources: Seq<InstallerSource>) -> Result<Seq<UrlView>, ErrorSays>
    decreases sources.len(),
{
    if sources.len() == 0 {
        Ok(Seq::empty())
    } else {
        match source_urls(sources.drop_last()) {
            Err(error) => Err(error),
            Ok(before) => match installer_url(sources.last().url@) {
                Err(error) => Err(error),
                Ok(url) => Ok(before.push(url)),
            },
        }
    }
}

/// The URLs of at least one source.
pub open spec fn update_urls(sources: Seq<InstallerSource>) -> Result<Seq<UrlView>, ErrorSays> {
    match source_urls(sources) {
        Err(error) => Err(error),
        Ok(urls) => if urls.len() == 0 {
            Err(ErrorSays::Invalid("At least one URL is required"@))
        } else {
            Ok(urls)
        },
    }
}

/// The URL of release notes.
pub open spec fn notes_url(notes: Option<ReleaseNotesInput>) -> Result<
    Option<Seq<char>>,
    ErrorSays,
> {
    match notes {
        Some(notes) if notes.url is Some => match decoded_url(notes.url.unwrap()@) {
            Ok((url, _)) => Ok(Some(url)),
            Err(fault) => Err(ErrorSays::Invalid("Invalid release notes URL: "@ + fault)),
        },
        _ => Ok(None),
    }
}

/// The text of release notes.
pub open spec fn notes_text(notes: Option<ReleaseNotesInput>) -> Result<
    Option<Seq<char>>,
    ErrorSays,
> {
    match notes {
        Some(notes) if notes.text is Some => match release_notes_of(notes.text.unwrap()@) {
            Ok(text) => Ok(Some(text)),
            Err(fault) => Err(ErrorSays::Invalid("Invalid release notes: "@ + fault)),
        },
        _ => Ok(None),
    }
}

/// Whether a package kind is that of a font.
pub open spec fn kind_is_font(kind: Option<Seq<char>>) -> Result<Option<bool>, ErrorSays> {
    match kind {
        None => Ok(None),
        Some(kind) => if kind == "auto"@ {
            Ok(None)
        } else if kind == "standard"@ {
            Ok(Some(false))
        } else if kind == "font"@ {
            Ok(Some(true))
        } else {
            Err(ErrorSays::Invalid("Invalid package kind "@ + quoted_text(kind)))
        },
    }
}

/// The update that a request asks for, or the first thing that is wrong with it.
pub open spec fn plan_of(request: UpdatePackageRequest) -> Result<PlanView, ErrorSays> {
    let sources = request.installers@.map_values(|input: InstallerInput| source_of(input));
    match mode_submits(request.mode@) {
        Err(error) => Err(error),
        Ok(submit) => match identifier_of(request.package_identifier@) {
            Err(error) => Err(error),
            Ok(package_identifier) => match selector_of(request.version) {
                Err(error) => Err(error),
                Ok(version_selector) => match update_urls(sources) {
                    Err(error) => Err(error),
                    Ok(urls) => match notes_url(request.release_notes) {
                        Err(error) => Err(error),
                        Ok(release_notes_url) => match notes_text(request.release_notes) {
                            Err(error) => Err(error),
                            Ok(release_notes) => match replacement_of(request.replace) {
                                Err(error) => Err(error),
                                Ok(replace) => match kind_is_font(opt_text(request.package_kind)) {
                                    Err(error) => Err(error),
                                    Ok(font) => Ok(
                                        PlanView {
                                            submit,
                                            package_identifier,
                                            version_selector,
                                            installers: sources,
                                            urls,
                                            release_notes_url,
                                            release_notes,
                                            replace,
                                            font,
                                        },
                                    ),
                                },
                            },
                        },
                    },
                },
            },
        },
    }
}

fn parse_mode(mode: &str) -> (r: AnthelionResult<bool>)
    ensures
        mode_submits(mode@) == match r {
            Ok(submit) => Ok::<bool, ErrorSays>(submit),
            Err(error) => Err(error@),
        },
{
    if str_eq(mode, "generate") {
        Ok(false)
    } else if str_eq(mode, "submit") {
        Ok(true)
    } else {
        Err(AnthelionError::invalid(joined("Invalid update mode ", quoted(mode).as_str())))
    }
}

/// The package identifier that a text is.
pub fn parse_identifier(text: &str) -> (r: AnthelionResult<String>)
    ensures
        identifier_of(text@) == match r {
            Ok(identifier) => Ok::<Seq<char>, ErrorSays>(identifier@),
            Err(error) => Err(error@),
        },
{
    match parse_package_identifier(text) {
        Ok(identifier) => Ok(identifier),
        Err(fault) => Err(
            AnthelionError::invalid(joined("Invalid package identifier: ", fault.as_str())),
        ),
    }
}

proof fn lemma_source_urls_error(sources: Seq<InstallerSource>, i: int)
    requires
        0 <= i <= sources.len(),
        source_urls(sources.take(i)) is Err,
    ensures
        source_urls(sources) == source_urls(sources.take(i)),
    decreases sources.len() - i,
{
    if i < sources.len() {
        assert(sources.take(i + 1).drop_last() =~= sources.take(i));
        lemma_source_urls_error(sources, i + 1);
    } else {
        assert(sources.take(i) =~= sources);
    }
}

fn parse_urls(sources: &Vec<InstallerSource>) -> (r: AnthelionResult<Vec<Url>>)
    ensures
        update_urls(sources@) == match r {
            Ok(urls) => Ok::<Seq<UrlView>, ErrorSays>(url_views(urls@)),
            Err(error) => Err(error@),
        },
{
    let mut urls: Vec<Url> = Vec::new();
    let mut i: usize = 0;
    assert(sources@.take(0) =~= Seq::empty());
    assert(url_views(urls@) =~= Seq::empty());
    while i < sources.len()
        invariant
            i <= sources.len(),
            source_urls(sources@.take(i as int)) == Ok::<_, ErrorSays>(url_views(urls@)),
            urls@.len() == i,
        decreases sources.len() - i,
    {
        let ghost before = url_views(urls@);
        assert(sources@.take(i + 1).drop_last() =~= sources@.take(i as int));
        match parse_installer_url(sources[i].url.as_str()) {
            Ok(url) => {
                urls.push(url);
                assert(url_views(urls@) =~= before.push(url@));
            },
            Err(error) => {
                proof {
                    lemma_source_urls_error(sources@, i + 1);
                }
                return Err(error);
            },
        }
        i += 1;
    }
    assert(sources@.take(i as int) =~= sources@);
    if urls.len() == 0 {
        return Err(AnthelionError::invalid("At least one URL is required".to_owned()));
    }
    Ok(urls)
}

fn parse_notes_url(notes: &Option<ReleaseNotesInput>) -> (r: AnthelionResult<Option<String>>)
    ensures
        notes_url(*notes) == match r {
            Ok(url) => Ok::<Option<Seq<char>>, ErrorSays>(opt_text(url)),
            Err(error) => Err(error@),
        },
{
    if let Some(notes) = notes {
        if let Some(url) = &notes.url {
            return match parse_decoded_url(url.as_str()) {
                Ok((url, _)) => Ok(Some(url)),
                Err(fault) => Err(
                    AnthelionError::invalid(joined("Invalid release notes URL: ", fault.as_str())),
                ),
            };
        }
    }
    Ok(None)
}

fn parse_notes_text(notes: &Option<ReleaseNotesInput>) -> (r: AnthelionResult<Option<String>>)
    ensures
        notes_text(*notes) == match r {
            Ok(text) => Ok::<Option<Seq<char>>, ErrorSays>(opt_text(text)),
            Err(error) => Err(error@),
        },
{
    if let Some(notes) = notes {
        if let Some(text) = &notes.text {
            return match parse_release_notes(text.as_str()) {
                Ok(text) => Ok(Some(text)),
                Err(fault) => Err(
                    AnthelionError::invalid(joined("Invalid release notes: ", fault.as_str())),
                ),
            };
        }
    }
    Ok(None)
}

fn parse_package_kind(kind: &Option<String>) -> (r: AnthelionResult<Option<bool>>)
    ensures
        kind_is_font(opt_text(*kind)) == match r {
            Ok(font) => Ok::<Option<bool>, ErrorSays>(font),
            Err(error) => Err(error@),
        },
{
    match kind {
        None => Ok(None),
        Some(kind) => {
            let kind = kind.as_str();
            if str_eq(kind, "auto") {
                Ok(None)
            } else if str_eq(kind, "standard") {
                Ok(Some(false))
            } else if str_eq(kind, "font") {
                Ok(Some(true))
            } else {
                Err(AnthelionError::invalid(joined("Invalid package kind ", quoted(kind).as_str())))
            }
        },
    }
}

/// The update that a request asks for, or the first thing that is wrong with it.
pub fn plan_update(request: UpdatePackageRequest) -> (r: AnthelionResult<UpdatePlan>)
    ensures
        plan_of(request) == match r {
            Ok(plan) => Ok::<PlanView, ErrorSays>(plan@),
            Err(error) => Err(error@),
        },
{
    let submit = parse_mode(request.mode.as_str())?;
    let package_identifier = parse_identifier(request.package_identifier.as_str())?;
    let version_selector = parse_version_selector(request.version)?;
    let installers = normalize_installer_inputs(request.installers);
    let urls = parse_urls(&installers)?;
    let release_notes_url = parse_notes_url(&request.release_notes)?;
    let release_notes = parse_notes_text(&request.release_notes)?;
    let replace = parse_replacement(request.replace)?;
    let font = parse_package_kind(&request.package_kind)?;
    Ok(
        UpdatePlan {
            submit,
            package_identifier,
            version_selector,
            installers,
            urls,
            release_notes_url,
            release_notes,
            replace,
            font,
        },
    )
}

/// The host of GitHub.
pub open spec fn is_on_github(url: UrlView) -> bool {
    url.host == Some("github.com"@)
}

/// The first URL that is one of GitHub's.
pub open spec fn first_on_github(urls: Seq<UrlView>) -> Option<UrlView>
    decreases urls.len(),
{
    if urls.len() == 0 {
        None
    } else if is_on_github(urls[0]) {
        Some(urls[0])
    } else {
        first_on_github(urls.drop_first())
    }
}

/// The URL whose release tells what GitHub knows of the package: the first of GitHub's.
pub fn github_url<'a>(urls: &'a Vec<Url>) -> (r: Option<&'a Url>)
    ensures
        first_on_github(url_views(urls@)) == match r {
            Some(url) => Some(url@),
            None => None::<UrlView>,
        },
{
    let ghost all = url_views(urls@);
    let mut i: usize = 0;
    assert(all.skip(0) =~= all);
    while i < urls.len()
        invariant
            i <= urls.len(),
            all == url_views(urls@),
            first_on_github(all) == first_on_github(all.skip(i as int)),
        decreases urls.len() - i,
    {
        assert(all.skip(i as int)[0] == urls@[i as int]@);
        assert(all.skip(i as int).drop_first() =~= all.skip(i + 1));
        if let Some(host) = &urls[i].host {
            if str_eq(host.as_str(), "github.com") {
                return Some(&urls[i]);
            }
        }
        i += 1;
    }
    None
}

/// The latest of the versions of a package: the highest, in whatever order they are listed.
pub fn latest_version(versions: &Vec<String>) -> (r: AnthelionResult<String>)
    ensures
        match highest(texts(versions@)) {
            None => r matches Err(error) && error@ == ErrorSays::Failure(
                ErrorCode::UpdateFailed,
                "No versions found for package"@,
            ),
            Some(latest) => r matches Ok(version) && version@ == latest,
        },
{
    let mut set = ordered_versions(versions);
    let ghost all = texts(set@);
    match set.pop() {
        Some(version) => {
            assert(version@ == all.last());
            Ok(version)
        },
        None => Err(
            AnthelionError::failure(
                ErrorCode::UpdateFailed,
                "No versions found for package".to_owned(),
            ),
        ),
    }
}

/// The product version that the analyses tell of.
pub open spec fn detected_product_version(analyses: Seq<ArtifactView>) -> Option<Seq<char>> {
    first_filled(
        present_texts(analyses.map_values(|analysis: ArtifactView| analysis.product_version)),
    )
}

/// The file version that the analyses tell of.
pub open spec fn detected_file_version(analyses: Seq<ArtifactView>) -> Option<Seq<char>> {
    first_filled(
        present_texts(analyses.map_values(|analysis: ArtifactView| analysis.file_version)),
    )
}

/// The entries of installers, one behind the other.
pub open spec fn all_entries(installers: Seq<InstallerView>) -> Seq<EntryView>
    decreases installers.len(),
{
    if installers.len() == 0 {
        Seq::empty()
    } else {
        installers[0].apps_and_features_entries + all_entries(installers.drop_first())
    }
}

/// The installers of analyses, one behind the other.
pub open spec fn all_installers(analyses: Seq<ArtifactView>) -> Seq<InstallerView>
    decreases analyses.len(),
{
    if analyses.len() == 0 {
        Seq::empty()
    } else {
        analyses[0].installers + all_installers(analyses.drop_first())
    }
}

/// The first display version that is more than white space.
pub open spec fn first_shown(entries: Seq<EntryView>) -> Option<Seq<char>>
    decreases entries.len(),
{
    if entries.len() == 0 {
        None
    } else {
        match entries[0].display_version {
            Some(version) if trimmed(version).len() > 0 => Some(version),
            _ => first_shown(entries.drop_first()),
        }
    }
}

/// The version that an update creates, given what the analysis found.
pub open spec fn created_version(
    selector: SelectorView,
    product: Option<Seq<char>>,
    file: Option<Seq<char>>,
    display: Option<Seq<char>>,
) -> Result<Seq<char>, ErrorSays> {
    match selector {
        SelectorView::Explicit(version) => Ok(version),
        SelectorView::ProductVersion => match product {
            Some(text) => version_or(text, "Invalid ProductVersion: "@),
            None => Err(
                ErrorSays::Invalid(
                    "version.source is product, but installer analysis found no ProductVersion"@,
                ),
            ),
        },
        SelectorView::FileVersion => match file {
            Some(text) => version_or(text, "Invalid FileVersion: "@),
            None => Err(
                ErrorSays::Invalid(
                    "version.source is file, but installer analysis found no FileVersion"@,
                ),
            ),
        },
        SelectorView::DisplayVersion => match display {
            Some(text) => version_or(text, "Invalid DisplayVersion: "@),
            None => Err(
                ErrorSays::Invalid(
                    "version.source is display, but installer analysis found no DisplayVersion"@,
                ),
            ),
        },
    }
}

fn product_version_of(analyses: &Vec<ArtifactAnalysis>) -> (r: Option<String>)
    ensures
        opt_text(r) == detected_product_version(artifact_views(analyses@)),
{
    let ghost all = artifact_views(analyses@).map_values(
        |analysis: ArtifactView| analysis.product_version,
    );
    let mut values: Vec<&str> = Vec::new();
    let mut i: usize = 0;
    assert(all.take(0) =~= Seq::empty());
    assert(str_texts(values@) =~= Seq::empty());
    while i < analyses.len()
        invariant
            i <= analyses.len(),
            all == artifact_views(analyses@).map_values(
                |analysis: ArtifactView| analysis.product_version,
            ),
            str_texts(values@) == present_texts(all.take(i as int)),
        decreases analyses.len() - i,
    {
        let ghost before = str_texts(values@);
        assert(all.take(i + 1).drop_last() =~= all.take(i as int));
        assert(all[i as int] == opt_text(analyses@[i as int].product_version));
        if let Some(version) = &analyses[i].product_version {
            values.push(version.as_str());
            assert(str_texts(values@) =~= before.push(version@));
        }
        i += 1;
    }
    assert(all.take(i as int) =~= all);
    first_non_empty(&values)
}

fn file_version_of(analyses: &Vec<ArtifactAnalysis>) -> (r: Option<String>)
    ensures
        opt_text(r) == detected_file_version(artifact_views(analyses@)),
{
    let ghost all = artifact_views(analyses@).map_values(
        |analysis: ArtifactView| analysis.file_version,
    );
    let mut values: Vec<&str> = Vec::new();
    let mut i: usize = 0;
    assert(all.take(0) =~= Seq::empty());
    assert(str_texts(values@) =~= Seq::empty());
    while i < analyses.len()
        invariant
            i <= analyses.len(),
            all == artifact_views(analyses@).map_values(
                |analysis: ArtifactView| analysis.file_version,
            ),
            str_texts(values@) == present_texts(all.take(i as int)),
        decreases analyses.len() - i,
    {
        let ghost before = str_texts(values@);
        assert(all.take(i + 1).drop_last() =~= all.take(i as int));
        assert(all[i as int] == opt_text(analyses@[i as int].file_version));
        if let Some(version) = &analyses[i].file_version {
            values.push(version.as_str());
            assert(str_texts(values@) =~= before.push(version@));
        }
        i += 1;
    }
    assert(all.take(i as int) =~= all);
    first_non_empty(&values)
}

/// The first display version of an installer that is more than white space.
fn shown_version(entries: &Vec<AppsAndFeaturesEntry>) -> (r: Option<String>)
    ensures
        opt_text(r) == first_shown(entry_views(entries@)),
{
    let ghost all = entry_views(entries@);
    let mut i: usize = 0;
    assert(all.skip(0) =~= all);
    while i < entries.len()
        invariant
            i <= entries.len(),
            all == entry_views(entries@),
            first_shown(all) == first_shown(all.skip(i as int)),
        decreases entries.len() - i,
    {
        assert(all.skip(i as int)[0] == entries@[i as int]@);
        assert(all.skip(i as int).drop_first() =~= all.skip(i + 1));
        if let Some(version) = &entries[i].display_version {
            if trim(version.as_str()).as_str().unicode_len() > 0 {
                return Some(version.clone());
            }
        }
        i += 1;
    }
    None
}

proof fn lemma_first_shown_concat(a: Seq<EntryView>, b: Seq<EntryView>)
    ensures
        first_shown(a + b) == match first_shown(a) {
            Some(version) => Some(version),
            None => first_shown(b),
        },
    decreases a.len(),
{
    if a.len() == 0 {
        assert(a + b =~= b);
    } else {
        lemma_first_shown_concat(a.drop_first(), b);
        assert((a + b).drop_first() =~= a.drop_first() + b);
    }
}

/// The entries of two lists of installers are those of the first, and then those of the second.
pub proof fn lemma_all_entries_concat(a: Seq<InstallerView>, b: Seq<InstallerView>)
    ensures
        all_entries(a + b) == all_entries(a) + all_entries(b),
    decreases a.len(),
{
    if a.len() == 0 {
        assert(a + b =~= b);
        assert(all_entries(a) + all_entries(b) =~= all_entries(b));
    } else {
        lemma_all_entries_concat(a.drop_first(), b);
        assert((a + b).drop_first() =~= a.drop_first() + b);
        assert(all_entries(a + b) =~= all_entries(a) + all_entries(b));
    }
}

fn installers_version(installers: &Vec<Installer>) -> (r: Option<String>)
    ensures
        opt_text(r) == first_shown(all_entries(installer_views(installers@))),
{
    let ghost all = installer_views(installers@);
    let mut i: usize = 0;
    assert(all.skip(0) =~= all);
    while i < installers.len()
        invariant
            i <= installers.len(),
            all == installer_views(installers@),
            first_shown(all_entries(all)) == first_shown(all_entries(all.skip(i as int))),
        decreases installers.len() - i,
    {
        let ghost rest = all.skip(i as int);
        assert(rest[0] == installers@[i as int]@);
        assert(rest.drop_first() =~= all.skip(i + 1));
        proof {
            lemma_first_shown_concat(
                rest[0].apps_and_features_entries,
                all_entries(rest.drop_first()),
            );
        }
        if let Some(version) = shown_version(&installers[i].apps_and_features_entries) {
            return Some(version);
        }
        i += 1;
    }
    None
}

/// The display version that the analyses tell of.
pub open spec fn detected_display_version(analyses: Seq<ArtifactView>) -> Option<Seq<char>> {
    first_shown(all_entries(all_installers(analyses)))
}

fn display_version_of(analyses: &Vec<ArtifactAnalysis>) -> (r: Option<String>)
    ensures
        opt_text(r) == detected_display_version(artifact_views(analyses@)),
{
    let ghost all = artifact_views(analyses@);
    let mut i: usize = 0;
    assert(all.skip(0) =~= all);
    while i < analyses.len()
        invariant
            i <= analyses.len(),
            all == artifact_views(analyses@),
            detected_display_version(all) == detected_display_version(all.skip(i as int)),
        decreases analyses.len() - i,
    {
        let ghost rest = all.skip(i as int);
        assert(rest[0] == analyses@[i as int]@);
        assert(rest.drop_first() =~= all.skip(i + 1));
        proof {
            lemma_all_entries_concat(rest[0].installers, all_installers(rest.drop_first()));
            lemma_first_shown_concat(
                all_entries(rest[0].installers),
                all_entries(all_installers(rest.drop_first())),
            );
        }
        if let Some(version) = installers_version(&analyses[i].installers) {
            return Some(version);
        }
        i += 1;
    }
    None
}

/// The version that an update creates: the one that was given, or the one that the analysis found.
pub fn resolve_version(
    selector: &VersionSelector,
    analyses: &Vec<ArtifactAnalysis>,
) -> (r: AnthelionResult<String>)
    ensures
        created_version(
            selector@,
            detected_product_version(artifact_views(analyses@)),
            detected_file_version(artifact_views(analyses@)),
            detected_display_version(artifact_views(analyses@)),
        ) == match r {
            Ok(version) => Ok::<Seq<char>, ErrorSays>(version@),
            Err(error) => Err(error@),
        },
{
    match selector {
        VersionSelector::Explicit(version) => Ok(version.clone()),
        VersionSelector::ProductVersion => match product_version_of(analyses) {
            Some(text) => package_version_or(text.as_str(), "Invalid ProductVersion: "),
            None => Err(
                AnthelionError::invalid(
                    "version.source is product, but installer analysis found no ProductVersion".to_owned(),
                ),
            ),
        },
        VersionSelector::FileVersion => match file_version_of(analyses) {
            Some(text) => package_version_or(text.as_str(), "Invalid FileVersion: "),
            None => Err(
                AnthelionError::invalid(
                    "version.source is file, but installer analysis found no FileVersion".to_owned(),
                ),
            ),
        },
        VersionSelector::DisplayVersion => match display_version_of(analyses) {
            Some(text) => package_version_or(text.as_str(), "Invalid DisplayVersion: "),
            None => Err(
                AnthelionError::invalid(
                    "version.source is display, but installer analysis found no DisplayVersion".to_owned(),
                ),
            ),
        },
    }
}

/// What an [`UpdatePackageResult`] says.
#[verifier::ext_equal]
pub struct ResultView {
    pub identifier: Seq<char>,
    pub version: Seq<char>,
    /// The path and the text of each manifest.
    pub manifests: Seq<(Seq<char>, Seq<char>)>,
    /// The URL of the pull request, and that of its diff.
    pub pull_request: Option<(Seq<char>, Seq<char>)>,
}

impl View for UpdatePackageResult {
    type V = ResultView;

    open spec fn view(&self) -> ResultView {
        ResultView {
            identifier: self.package.identifier@,
            version: self.package.version@,
            manifests: self.manifests@.map_values(
                |manifest: GeneratedManifest| (manifest.path@, manifest.yaml@),
            ),
            pull_request: match self.pull_request {
                Some(created) => Some((created.url@, created.diff_url@)),
                None => None,
            },
        }
    }
}

/// What a list of pairs of texts says.
pub open spec fn text_pairs(pairs: Seq<(String, String)>) -> Seq<(Seq<char>, Seq<char>)> {
    pairs.map_values(|pair: (String, String)| (pair.0@, pair.1@))
}

/// What a pair of texts says, where there is one.
pub open spec fn opt_pair(pair: Option<(String, String)>) -> Option<(Seq<char>, Seq<char>)> {
    match pair {
        Some((first, second)) => Some((first@, second@)),
        None => None,
    }
}

/// What is done once the changes of an update are made.
#[derive(Clone, Copy, Debug, Eq, PartialEq, Structural)]
pub enum UpdateStep {
    /// Create a pull request with the changes.
    Submit,
    /// Show the result.
    Finish,
}

/// What is done next: an update that submits creates one pull request, any other creates none.
pub open spec fn step_of(submit: bool, created: bool) -> UpdateStep {
    if submit && !created {
        UpdateStep::Submit
    } else {
        UpdateStep::Finish
    }
}

/// What is done next, given whether a pull request was created.
pub fn next_update_step(submit: bool, pull_request: &Option<(String, String)>) -> (r: UpdateStep)
    ensures
        r == step_of(submit, *pull_request is Some),
{
    if submit && pull_request.is_none() {
        UpdateStep::Submit
    } else {
        UpdateStep::Finish
    }
}

/// What an update came to: the manifests that it made, and the pull request, if it submits.
pub open spec fn result_of(
    submit: bool,
    identifier: Seq<char>,
    version: Seq<char>,
    changes: Seq<(Seq<char>, Seq<char>)>,
    pull_request: Option<(Seq<char>, Seq<char>)>,
) -> ResultView {
    ResultView {
        identifier,
        version,
        manifests: changes,
        pull_request: if submit {
            pull_request
        } else {
            None
        },
    }
}

/// Tells a caller what an update came to: the manifests by their paths, and the pull request by its
/// URL and that of its diff, where one was submitted.
pub fn update_result(
    submit: bool,
    identifier: &str,
    version: &str,
    changes: Vec<(String, String)>,
    pull_request: Option<(String, String)>,
) -> (r: UpdatePackageResult)
    ensures
        r@ == result_of(
            submit,
            identifier@,
            version@,
            text_pairs(changes@),
            opt_pair(pull_request),
        ),
        r.package.identifier@ == identifier@,
        r.package.version@ == version@,
        r.manifests@.len() == changes@.len(),
        forall|i: int|
            0 <= i < changes@.len() ==> (#[trigger] r.manifests@[i]).path@ == changes@[i].0@
                && r.manifests@[i].yaml@ == changes@[i].1@,
        match pull_request {
            Some((url, diff_url)) if submit => r.pull_request matches Some(created) && created.url@
                == url@ && created.diff_url@ == diff_url@,
            _ => r.pull_request is None,
        },
{
    let ghost given = changes@;
    let mut manifests: Vec<GeneratedManifest> = Vec::new();
    for change in it: changes.into_iter()
        invariant
            it.seq() == given,
            manifests@.len() == it.index(),
            forall|i: int|
                0 <= i < it.index() ==> (#[trigger] manifests@[i]).path == given[i].0
                    && manifests@[i].yaml == given[i].1,
    {
        let (path, yaml) = change;
        manifests.push(GeneratedManifest { path, yaml });
    }
    let r = UpdatePackageResult {
        package: UpdatedPackage { identifier: identifier.to_owned(), version: version.to_owned() },
        manifests,
        pull_request: match pull_request {
            Some((url, diff_url)) if submit => Some(CreatedPullRequest { url, diff_url }),
            _ => None,
        },
    };
    assert(r@.manifests =~= text_pairs(given));
    r
}

/// An update that generates never submits: no step creates a pull request, and the result shows none.
pub proof fn law_generate_never_submits(
    request: UpdatePackageRequest,
    version: Seq<char>,
    changes: Seq<(Seq<char>, Seq<char>)>,
    pull_request: Option<(Seq<char>, Seq<char>)>,
)
    requires
        request.mode@ == "generate"@,
    ensures
        plan_of(request) matches Ok(plan) ==> {
            &&& step_of(plan.submit, pull_request is Some) == UpdateStep::Finish
            &&& result_of(plan.submit, plan.package_identifier, version, changes, pull_request)
                .pull_request is None
        },
{
}

/// Two requests that differ in their mode alone are refused alike or planned alike. What they come to
/// shows the same package and the same manifests; the pull request is what the one that submits has
/// besides, and it creates just one.
pub proof fn law_modes_agree(
    generate: UpdatePackageRequest,
    submit: UpdatePackageRequest,
    version: Seq<char>,
    changes: Seq<(Seq<char>, Seq<char>)>,
    created: (Seq<char>, Seq<char>),
)
    requires
        generate.mode@ == "generate"@,
        submit.mode@ == "submit"@,
        submit == (UpdatePackageRequest { mode: submit.mode, ..generate }),
    ensures
        match (plan_of(generate), plan_of(submit)) {
            (Ok(first), Ok(second)) => {
                let generated = result_of(
                    first.submit,
                    first.package_identifier,
                    version,
                    changes,
                    None,
                );
                let submitted = result_of(
                    second.submit,
                    second.package_identifier,
                    version,
                    changes,
                    Some(created),
                );
                &&& second == (PlanView { submit: true, ..first })
                &&& step_of(first.submit, false) == UpdateStep::Finish
                &&& step_of(second.submit, false) == UpdateStep::Submit
                &&& step_of(second.submit, true) == UpdateStep::Finish
                &&& submitted == (ResultView { pull_request: Some(created), ..generated })
                &&& generated.pull_request is None
            },
            (Err(first), Err(second)) => first == second,
            _ => false,
        },
{
    reveal_strlit("generate");
    reveal_strlit("submit");
    assert("generate"@.len() != "submit"@.len());
}

proof fn lemma_source_urls(sources: Seq<InstallerSource>)
    ensures
        match source_urls(sources) {
            Ok(urls) => urls.len() == sources.len(),
            Err(error) => error is Invalid,
        },
    decreases sources.len(),
{
    if sources.len() > 0 {
        lemma_source_urls(sources.drop_last());
    }
}

/// Whatever is wrong with a request is the caller's fault: no error of a request is a failure. A request
/// that is valid has an installer, and a URL for each.
pub proof fn law_plan(request: UpdatePackageRequest)
    ensures
        match plan_of(request) {
            Ok(plan) => plan.urls.len() > 0 && plan.urls.len() == plan.installers.len()
                && plan.installers.len() == request.installers@.len(),
            Err(error) => error is Invalid,
        },
{
    lemma_source_urls(request.installers@.map_values(|input: InstallerInput| source_of(input)));
}

/// The files of the archive at a URL that may be installers: those of the last analysis of it.
pub open spec fn archive_files(analyses: Seq<ArtifactView>, url: Seq<char>) -> Seq<Seq<char>>
    decreases analyses.len(),
{
    if analyses.len() == 0 {
        Seq::empty()
    } else if analyses.last().url == url {
        analyses.last().possible_installer_files
    } else {
        archive_files(analyses.drop_last(), url)
    }
}

/// The files of the archive at a URL that may be installers.
pub fn possible_files(analyses: &Vec<ArtifactAnalysis>, url: &str) -> (r: Vec<String>)
    ensures
        texts(r@) == archive_files(artifact_views(analyses@), url@),
{
    let ghost all = artifact_views(analyses@);
    let mut i: usize = analyses.len();
    assert(all.take(i as int) =~= all);
    while i > 0
        invariant
            i <= analyses.len(),
            all == artifact_views(analyses@),
            archive_files(all, url@) == archive_files(all.take(i as int), url@),
        decreases i,
    {
        assert(all.take(i as int).last() == analyses@[i - 1]@);
        assert(all.take(i as int).drop_last() =~= all.take(i - 1));
        if str_eq(analyses[i - 1].url.as_str(), url) {
            return copy_strings(&analyses[i - 1].possible_installer_files);
        }
        i -= 1;
    }
    let none: Vec<String> = Vec::new();
    assert(texts(none@) =~= Seq::empty());
    none
}

proof fn lemma_all_installers_push(analyses: Seq<ArtifactView>, last: ArtifactView)
    ensures
        all_installers(analyses.push(last)) == all_installers(analyses) + last.installers,
    decreases analyses.len(),
{
    let all = analyses.push(last);
    if analyses.len() == 0 {
        assert(all.drop_first() =~= Seq::<ArtifactView>::empty());
        assert(all_installers(all.drop_first()) =~= Seq::<InstallerView>::empty());
        assert(all_installers(all) =~= all_installers(analyses) + last.installers);
    } else {
        lemma_all_installers_push(analyses.drop_first(), last);
        assert(all.drop_first() =~= analyses.drop_first().push(last));
        assert(all_installers(all) =~= all_installers(analyses) + last.installers);
    }
}

/// The installers of analyses, one behind the other.
pub fn collect_installers(analyses: &Vec<ArtifactAnalysis>) -> (r: Vec<Installer>)
    ensures
        installer_views(r@) == all_installers(artifact_views(analyses@)),
{
    let ghost all = artifact_views(analyses@);
    let mut out: Vec<Installer> = Vec::new();
    let mut i: usize = 0;
    assert(all.take(0) =~= Seq::empty());
    assert(installer_views(out@) =~= Seq::empty());
    while i < analyses.len()
        invariant
            i <= analyses.len(),
            all == artifact_views(analyses@),
            installer_views(out@) == all_installers(all.take(i as int)),
        decreases analyses.len() - i,
    {
        let ghost before = installer_views(out@);
        proof {
            lemma_all_installers_push(all.take(i as int), all[i as int]);
            assert(all.take(i + 1) =~= all.take(i as int).push(all[i as int]));
        }
        let mut more = copy_installers(&analyses[i].installers);
        let ghost added = installer_views(more@);
        out.append(&mut more);
        assert(installer_views(out@) =~= before + added);
        i += 1;
    }
    assert(all.take(i as int) =~= all);
    out
}

/// An explicit version is created whatever the analysis found. Any other is a version that the
/// analysis found, and what is wrong with it is the caller's fault.
pub proof fn law_created_version(
    selector: SelectorView,
    product: Option<Seq<char>>,
    file: Option<Seq<char>>,
    display: Option<Seq<char>>,
)
    ensures
        selector matches SelectorView::Explicit(version) ==> created_version(
            selector,
            product,
            file,
            display,
        ) == Ok::<_, ErrorSays>(version),
        match created_version(selector, product, file, display) {
            Ok(version) => selector is Explicit || exists|found: Seq<char>|
                (product == Some(found) || file == Some(found) || display == Some(found))
                    && #[trigger] is_package_version(found) && version == trimmed(found),
            Err(error) => error is Invalid,
        },
{
}

} // verus!
