//! A view of a value holds what the value holds, part for part.
use vstd::prelude::*;

use crate::artifact::{artifact_views, keyed_views, str_texts, ArtifactAnalysis};
use crate::error::{AnthelionError, ErrorSays};
use crate::installshield::entries::file_views;
use crate::installshield::file::File;
use crate::manifest::{
    entry_views, installer_views, nested_views, AppsAndFeaturesEntry, Installer,
    NestedInstallerFile, Switches,
};
use crate::selector::{SelectorView, VersionSelector};
use crate::source::{parsed_views, AnalysisKey, ParsedSource, Url};
use crate::text::{opt_text, texts};
use crate::types::UpdatePackageResult;
use crate::update::{opt_pair, text_pairs, url_views, UpdatePlan};

verus! {

/// The text of an optional string is that of the string; the texts of a list are those of its strings,
/// in their order.
pub proof fn law_texts(given: String, list: Seq<String>, borrowed: Seq<&str>)
    ensures
        opt_text(Some(given)) == Some(given@),
        opt_text(None) is None,
        texts(list).len() == list.len(),
        forall|i: int| 0 <= i < list.len() ==> #[trigger] texts(list)[i] == list[i]@,
        str_texts(borrowed).len() == borrowed.len(),
        forall|i: int| 0 <= i < borrowed.len() ==> #[trigger] str_texts(borrowed)[i] == borrowed[i]@,
{
}

/// What pairs of strings say.
pub proof fn law_pairs(given: (String, String), list: Seq<(String, String)>)
    ensures
        opt_pair(Some(given)) == Some((given.0@, given.1@)),
        opt_pair(None) is None,
        text_pairs(list).len() == list.len(),
        forall|i: int|
            0 <= i < list.len() ==> #[trigger] text_pairs(list)[i] == (list[i].0@, list[i].1@),
{
}

/// What switches say.
pub proof fn law_switches_view(switches: Switches)
    ensures
        switches@.silent == opt_text(switches.silent),
        switches@.silent_with_progress == opt_text(switches.silent_with_progress),
        switches@.install_location == opt_text(switches.install_location),
        switches@.log == opt_text(switches.log),
        switches@.repair == opt_text(switches.repair),
{
}

/// What an entry of Apps and Features says.
pub proof fn law_entry_view(entry: AppsAndFeaturesEntry, list: Seq<AppsAndFeaturesEntry>)
    ensures
        entry@.display_name == opt_text(entry.display_name),
        entry@.publisher == opt_text(entry.publisher),
        entry@.display_version == opt_text(entry.display_version),
        entry@.product_code == opt_text(entry.product_code),
        entry@.upgrade_code == opt_text(entry.upgrade_code),
        entry@.installer_type == entry.installer_type,
        entry_views(list).len() == list.len(),
        forall|i: int| 0 <= i < list.len() ==> #[trigger] entry_views(list)[i] == list[i]@,
{
}

/// What a nested file says.
pub proof fn law_nested_view(file: NestedInstallerFile, list: Seq<NestedInstallerFile>)
    ensures
        file@.relative_file_path == file.relative_file_path@,
        file@.portable_command_alias == opt_text(file.portable_command_alias),
        nested_views(list).len() == list.len(),
        forall|i: int| 0 <= i < list.len() ==> #[trigger] nested_views(list)[i] == list[i]@,
{
}

/// What an installer says.
pub proof fn law_installer_view(installer: Installer, list: Seq<Installer>)
    ensures
        installer@.locale == opt_text(installer.locale),
        installer@.architecture == installer.architecture,
        installer@.installer_type == installer.installer_type,
        installer@.nested_installer_type == installer.nested_installer_type,
        installer@.nested_installer_files == nested_views(installer.nested_installer_files@),
        installer@.scope == installer.scope,
        installer@.url == installer.url@,
        installer@.sha_256 == installer.sha_256@,
        installer@.release_date == installer.release_date,
        installer@.product_code == opt_text(installer.product_code),
        installer@.apps_and_features_entries == entry_views(installer.apps_and_features_entries@),
        installer@.install_location == opt_text(installer.install_location),
        installer@.all_install_modes == installer.all_install_modes,
        installer@.switches == installer.switches@,
        installer@.expected_return_codes == installer.expected_return_codes@,
        installer_views(list).len() == list.len(),
        forall|i: int| 0 <= i < list.len() ==> #[trigger] installer_views(list)[i] == list[i]@,
{
}

/// What an analysis says.
pub proof fn law_artifact_view(
    analysis: ArtifactAnalysis,
    list: Seq<ArtifactAnalysis>,
    keyed: Seq<(AnalysisKey, ArtifactAnalysis)>,
)
    ensures
        analysis@.url == analysis.url@,
        analysis@.sha256 == analysis.sha256@,
        analysis@.release_date == analysis.release_date,
        analysis@.file_version == opt_text(analysis.file_version),
        analysis@.product_version == opt_text(analysis.product_version),
        analysis@.installers == installer_views(analysis.installers@),
        analysis@.possible_installer_files == texts(analysis.possible_installer_files@),
        artifact_views(list).len() == list.len(),
        forall|i: int| 0 <= i < list.len() ==> #[trigger] artifact_views(list)[i] == list[i]@,
        keyed_views(keyed).len() == keyed.len(),
        forall|i: int|
            0 <= i < keyed.len() ==> #[trigger] keyed_views(keyed)[i] == (keyed[i].0@, keyed[i].1@),
{
}

/// What a URL says.
pub proof fn law_url_view(url: Url, list: Seq<Url>)
    ensures
        url@.decoded == url.decoded@,
        url@.original == url.original@,
        url@.host == opt_text(url.host),
        url@.architecture == url.architecture,
        url_views(list).len() == list.len(),
        forall|i: int| 0 <= i < list.len() ==> #[trigger] url_views(list)[i] == list[i]@,
{
}

/// What a parsed source says, and the analysis that it needs: that of its URL as it was given, with its
/// matches.
pub proof fn law_source_view(source: ParsedSource, key: AnalysisKey, list: Seq<ParsedSource>)
    ensures
        source@.url == source.url@,
        source@.architecture == source.architecture,
        source@.nested_installer_matches == texts(source.nested_installer_matches@),
        source@.key().url == source.url.original@,
        source@.key().nested_installer_matches == texts(source.nested_installer_matches@),
        key@.url == key.url@,
        key@.nested_installer_matches == texts(key.nested_installer_matches@),
        parsed_views(list).len() == list.len(),
        forall|i: int| 0 <= i < list.len() ==> #[trigger] parsed_views(list)[i] == list[i]@,
{
}

/// What an embedded file says.
pub proof fn law_file_view(file: File, list: Seq<File>)
    ensures
        file@.name == file.name@,
        file@.encoded_flags == file.encoded_flags,
        file@.size == file.size,
        file@.offset == file.offset,
        file_views(list).len() == list.len(),
        forall|i: int| 0 <= i < list.len() ==> #[trigger] file_views(list)[i] == list[i]@,
{
}

/// What an error says.
pub proof fn law_error_view(error: AnthelionError)
    ensures
        match error {
            AnthelionError::InvalidArgument(reason) => error@ == ErrorSays::Invalid(reason@),
            AnthelionError::Failure { code, report } => error@ == ErrorSays::Failure(code, report@),
        },
{
}

/// What a choice of a version says: the version itself, where it is explicit, or where it comes from.
pub proof fn law_selector_view(selector: VersionSelector)
    ensures
        match (selector, selector@) {
            (VersionSelector::Explicit(version), SelectorView::Explicit(text)) => text == version@,
            (VersionSelector::ProductVersion, SelectorView::ProductVersion) => true,
            (VersionSelector::FileVersion, SelectorView::FileVersion) => true,
            (VersionSelector::DisplayVersion, SelectorView::DisplayVersion) => true,
            _ => false,
        },
{
}

/// What a plan says.
pub proof fn law_plan_view(plan: UpdatePlan)
    ensures
        plan@.submit == plan.submit,
        plan@.package_identifier == plan.package_identifier@,
        plan@.version_selector == plan.version_selector@,
        plan@.installers == plan.installers@,
        plan@.urls == url_views(plan.urls@),
        plan@.release_notes_url == opt_text(plan.release_notes_url),
        plan@.release_notes == opt_text(plan.release_notes),
        plan@.replace == opt_text(plan.replace),
        plan@.font == plan.font,
{
}

/// What the result of an update says.
pub proof fn law_result_view(result: UpdatePackageResult)
    ensures
        result@.identifier == result.package.identifier@,
        result@.version == result.package.version@,
        result@.manifests.len() == result.manifests@.len(),
        forall|i: int|
            0 <= i < result.manifests@.len() ==> #[trigger] result@.manifests[i] == (
                result.manifests@[i].path@,
                result.manifests@[i].yaml@,
            ),
        match result.pull_request {
            Some(created) => result@.pull_request == Some((created.url@, created.diff_url@)),
            None => result@.pull_request is None,
        },
{
}

} // verus!
