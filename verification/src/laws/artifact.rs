//! Analyses: of one download, and of the sources that share it.
use vstd::prelude::*;

use crate::artifact::{
    analysis_for, download_analysis, first_filled, first_of, matched_file_versions,
    matched_product_versions, present_texts, shows_artifact, shows_entry, shows_installer,
    source_analyses, source_analysis, ArtifactView, FileFacts, MatchedInstaller,
};
use crate::download::DownloadedFile;
use crate::error::{ErrorCode, ErrorSays};
use crate::manifest::{Architecture, EntryView, InstallerView};
use crate::source::{KeyView, ParsedView};
use crate::text::{opt_text, texts, trimmed};
use crate::time::date_text;
use crate::types::{AnalyzedArtifact, AnalyzedInstaller, AppsAndFeaturesEntryAnalysis};

verus! {

/// Whether an optional text is there and is more than white space.
pub open spec fn tells(value: Option<Seq<char>>) -> bool {
    match value {
        Some(text) => trimmed(text).len() > 0,
        None => false,
    }
}

/// Whether `found` is the first of the values that is more than white space, without the white space
/// around it.
pub open spec fn is_first_told(values: Seq<Option<Seq<char>>>, found: Option<Seq<char>>) -> bool {
    match found {
        Some(text) => exists|i: int|
            0 <= i < values.len() && tells(#[trigger] values[i]) && text == trimmed(
                values[i].unwrap(),
            ) && forall|k: int| 0 <= k < i ==> !tells(#[trigger] values[k]),
        None => forall|i: int| 0 <= i < values.len() ==> !tells(#[trigger] values[i]),
    }
}

/// The first text that is more than white space is found, without the white space around it, and
/// nothing where there is none.
pub proof fn law_first_filled(values: Seq<Seq<char>>)
    ensures
        match first_filled(values) {
            Some(text) => exists|i: int|
                0 <= i < values.len() && trimmed(#[trigger] values[i]).len() > 0 && text == trimmed(
                    values[i],
                ) && forall|k: int| 0 <= k < i ==> trimmed(#[trigger] values[k]).len() == 0,
            None => forall|i: int| 0 <= i < values.len() ==> trimmed(#[trigger] values[i]).len() == 0,
        },
    decreases values.len(),
{
    if values.len() > 0 {
        if trimmed(values[0]).len() == 0 {
            let rest = values.drop_first();
            law_first_filled(rest);
            match first_filled(rest) {
                Some(text) => {
                    let i = choose|i: int|
                        0 <= i < rest.len() && trimmed(#[trigger] rest[i]).len() > 0 && text
                            == trimmed(rest[i]) && forall|k: int|
                            0 <= k < i ==> trimmed(#[trigger] rest[k]).len() == 0;
                    assert(values[i + 1] == rest[i]);
                    assert forall|k: int| 0 <= k < i + 1 implies trimmed(#[trigger] values[k]).len()
                        == 0 by {
                        if k > 0 {
                            assert(values[k] == rest[k - 1]);
                        }
                    }
                },
                None => {
                    assert forall|k: int| 0 <= k < values.len() implies trimmed(
                        #[trigger] values[k],
                    ).len() == 0 by {
                        if k > 0 {
                            assert(values[k] == rest[k - 1]);
                        }
                    }
                },
            }
        } else {
            assert(trimmed(values[0]).len() > 0);
        }
    }
}

proof fn lemma_first_filled_push(values: Seq<Seq<char>>, last: Seq<char>)
    ensures
        first_filled(values.push(last)) == match first_filled(values) {
            Some(text) => Some(text),
            None => if trimmed(last).len() > 0 {
                Some(trimmed(last))
            } else {
                None
            },
        },
    decreases values.len(),
{
    let all = values.push(last);
    if values.len() == 0 {
        assert(all.drop_first() =~= Seq::<Seq<char>>::empty());
        assert(all[0] == last);
        assert(first_filled(all.drop_first()) is None);
    } else {
        lemma_first_filled_push(values.drop_first(), last);
        assert(all.drop_first() =~= values.drop_first().push(last));
        assert(all[0] == values[0]);
    }
}

/// Among optional texts, the first that is there and more than white space is found.
pub proof fn law_first_told(values: Seq<Option<Seq<char>>>)
    ensures
        is_first_told(values, first_filled(present_texts(values))),
    decreases values.len(),
{
    if values.len() > 0 {
        let before = values.drop_last();
        let last = values.last();
        law_first_told(before);
        let found = first_filled(present_texts(before));
        if let Some(text) = last {
            lemma_first_filled_push(present_texts(before), text);
        }
        assert(values[values.len() - 1] == last);
        assert forall|k: int| 0 <= k < before.len() implies before[k] == #[trigger] values[k] by {}
        match found {
            Some(text) => {
                let i = choose|i: int|
                    0 <= i < before.len() && tells(#[trigger] before[i]) && text == trimmed(
                        before[i].unwrap(),
                    ) && forall|k: int| 0 <= k < i ==> !tells(#[trigger] before[k]);
                assert(tells(values[i]));
                assert forall|k: int| 0 <= k < i implies !tells(#[trigger] values[k]) by {
                    assert(!tells(before[k]));
                }
            },
            None => {
                assert forall|k: int| 0 <= k < before.len() implies !tells(#[trigger] values[k]) by {
                    assert(!tells(before[k]));
                }
            },
        }
    } else {
        assert(present_texts(values) =~= Seq::<Seq<char>>::empty());
    }
}

/// The analysis of a download tells where it came from, its hash and its date, and the files of the
/// archive. It has the installers that were found in the archive where that was searched, and else those
/// of the file, one for one, each with the URL, the hash and the date of the download. Of an installer
/// nothing else changes but the architecture, which is the one given with the URL, or else the one that
/// the URL names, or else its own.
pub proof fn law_download_analysis(
    file: DownloadedFile,
    facts: FileFacts,
    matched: Option<Seq<MatchedInstaller>>,
    named: Option<Architecture>,
)
    ensures
        ({
            let analysis = download_analysis(file, facts, matched, named);
            let count = match matched {
                Some(matched) => matched.len(),
                None => facts.installers@.len(),
            };
            &&& analysis.url == file.url.decoded@
            &&& analysis.sha256 == file.sha_256@
            &&& analysis.release_date == file.last_modified
            &&& (facts.archive matches Some(files) ==> analysis.possible_installer_files == texts(
                files@,
            ))
            &&& (facts.archive is None ==> analysis.possible_installer_files.len() == 0)
            &&& analysis.installers.len() == count
            &&& forall|i: int|
                0 <= i < count ==> is_placed(
                    #[trigger] analysis.installers[i],
                    match matched {
                        Some(matched) => matched[i].installer@,
                        None => facts.installers@[i]@,
                    },
                    file,
                    named,
                )
        }),
{
}

/// Whether an installer is another one with what its download tells.
pub open spec fn is_placed(
    placed: InstallerView,
    found: InstallerView,
    file: DownloadedFile,
    named: Option<Architecture>,
) -> bool {
    &&& placed.url == file.url.decoded@
    &&& placed.sha_256 == file.sha_256@
    &&& placed.release_date == file.last_modified
    &&& match (file.url.architecture, named) {
        (Some(given), _) => placed.architecture == given,
        (None, Some(read)) => placed.architecture == read,
        (None, None) => placed.architecture == found.architecture,
    }
    &&& placed.locale == found.locale
    &&& placed.installer_type == found.installer_type
    &&& placed.nested_installer_type == found.nested_installer_type
    &&& placed.nested_installer_files == found.nested_installer_files
    &&& placed.scope == found.scope
    &&& placed.product_code == found.product_code
    &&& placed.apps_and_features_entries == found.apps_and_features_entries
    &&& placed.install_location == found.install_location
    &&& placed.all_install_modes == found.all_install_modes
    &&& placed.switches == found.switches
    &&& placed.expected_return_codes == found.expected_return_codes
}

/// The versions of a download: those of the file where the archive was not searched; else the first
/// that an installer found in it tells of, or those of the file where none does.
pub proof fn law_download_versions(
    file: DownloadedFile,
    facts: FileFacts,
    found: Seq<MatchedInstaller>,
    named: Option<Architecture>,
)
    ensures
        ({
            let plain = download_analysis(file, facts, None, named);
            let searched = download_analysis(file, facts, Some(found), named);
            &&& plain.file_version == opt_text(facts.file_version)
            &&& plain.product_version == opt_text(facts.product_version)
            &&& version_of_found(
                Seq::new(found.len(), |i: int| opt_text(found[i].file_version)),
                opt_text(facts.file_version),
                searched.file_version,
            )
            &&& version_of_found(
                Seq::new(found.len(), |i: int| opt_text(found[i].product_version)),
                opt_text(facts.product_version),
                searched.product_version,
            )
        }),
{
    let files = Seq::new(found.len(), |i: int| opt_text(found[i].file_version));
    let products = Seq::new(found.len(), |i: int| opt_text(found[i].product_version));
    assert(matched_file_versions(found) =~= files);
    assert(matched_product_versions(found) =~= products);
    law_first_told(files);
    law_first_told(products);
}

/// Whether a version is the first that the found installers tell of, or the other where none does.
pub open spec fn version_of_found(
    values: Seq<Option<Seq<char>>>,
    otherwise: Option<Seq<char>>,
    version: Option<Seq<char>>,
) -> bool {
    if exists|i: int| 0 <= i < values.len() && tells(#[trigger] values[i]) {
        version is Some && is_first_told(values, version)
    } else {
        version == otherwise
    }
}

/// The last analysis with a key is the one that counts.
pub proof fn law_analysis_for(analyzed: Seq<(KeyView, ArtifactView)>, key: KeyView)
    ensures
        match analysis_for(analyzed, key) {
            Some(analysis) => exists|i: int|
                0 <= i < analyzed.len() && #[trigger] analyzed[i] == (key, analysis) && forall|k: int|
                    i < k < analyzed.len() ==> (#[trigger] analyzed[k]).0 != key,
            None => forall|i: int| 0 <= i < analyzed.len() ==> (#[trigger] analyzed[i]).0 != key,
        },
    decreases analyzed.len(),
{
    if analyzed.len() > 0 {
        let before = analyzed.drop_last();
        let last = analyzed.len() - 1;
        law_analysis_for(before, key);
        assert forall|k: int| 0 <= k < before.len() implies before[k] == #[trigger] analyzed[k] by {}
        if analyzed[last].0 == key {
            assert(analyzed[last] == (key, analyzed[last].1));
        } else if let Some(analysis) = analysis_for(before, key) {
            let i = choose|i: int|
                0 <= i < before.len() && #[trigger] before[i] == (key, analysis) && forall|k: int|
                    i < k < before.len() ==> (#[trigger] before[k]).0 != key;
            assert(analyzed[i] == (key, analysis));
            assert forall|k: int| i < k < analyzed.len() implies (#[trigger] analyzed[k]).0 != key by {
                if k < last {
                    assert(before[k].0 != key);
                }
            }
        } else {
            assert forall|k: int| 0 <= k < analyzed.len() implies (#[trigger] analyzed[k]).0
                != key by {
                if k < last {
                    assert(before[k].0 != key);
                }
            }
        }
    }
}

/// Whether an installer is another one for the architecture that was asked for, where one was.
pub open spec fn is_installer_for(
    given: InstallerView,
    found: InstallerView,
    asked: Option<Architecture>,
) -> bool {
    &&& match asked {
        Some(architecture) => given.architecture == architecture,
        None => given.architecture == found.architecture,
    }
    &&& given.locale == found.locale
    &&& given.installer_type == found.installer_type
    &&& given.nested_installer_type == found.nested_installer_type
    &&& given.nested_installer_files == found.nested_installer_files
    &&& given.scope == found.scope
    &&& given.url == found.url
    &&& given.sha_256 == found.sha_256
    &&& given.release_date == found.release_date
    &&& given.product_code == found.product_code
    &&& given.apps_and_features_entries == found.apps_and_features_entries
    &&& given.install_location == found.install_location
    &&& given.all_install_modes == found.all_install_modes
    &&& given.switches == found.switches
    &&& given.expected_return_codes == found.expected_return_codes
}

/// Whether an analysis is another one but for the architectures of its installers, which are the one
/// that was asked for, where one was.
pub open spec fn is_analysis_for(
    given: ArtifactView,
    found: ArtifactView,
    asked: Option<Architecture>,
) -> bool {
    &&& given.url == found.url
    &&& given.sha256 == found.sha256
    &&& given.release_date == found.release_date
    &&& given.file_version == found.file_version
    &&& given.product_version == found.product_version
    &&& given.possible_installer_files == found.possible_installer_files
    &&& given.installers.len() == found.installers.len()
    &&& forall|i: int|
        0 <= i < found.installers.len() ==> is_installer_for(
            #[trigger] given.installers[i],
            found.installers[i],
            asked,
        )
}

/// A source gets the last analysis that was made of its URL, as it was given, with its matches. What it
/// gets differs from that in nothing but the architectures of the installers, which are the one that the
/// source asks for, where it asks for one. Without such an analysis it gets an error that names the URL.
pub proof fn law_source_analysis(source: ParsedView, analyzed: Seq<(KeyView, ArtifactView)>)
    ensures
        match source_analysis(source, analyzed) {
            Ok(given) => exists|i: int|
                0 <= i < analyzed.len() && is_key_of((#[trigger] analyzed[i]).0, source)
                    && is_analysis_for(given, analyzed[i].1, source.architecture) && forall|k: int|
                    i < k < analyzed.len() ==> !is_key_of((#[trigger] analyzed[k]).0, source),
            Err(error) => {
                &&& error == ErrorSays::Failure(
                    ErrorCode::AnalysisFailed,
                    "No analysis was returned for "@ + source.url.decoded,
                )
                &&& forall|i: int|
                    0 <= i < analyzed.len() ==> !is_key_of((#[trigger] analyzed[i]).0, source)
            },
        },
{
    law_analysis_for(analyzed, source.key());
    assert forall|i: int| 0 <= i < analyzed.len() implies (is_key_of(
        (#[trigger] analyzed[i]).0,
        source,
    ) <==> analyzed[i].0 == source.key()) by {}
    if let Some(found) = analysis_for(analyzed, source.key()) {
        let i = choose|i: int|
            0 <= i < analyzed.len() && #[trigger] analyzed[i] == (source.key(), found) && forall|
                k: int,
            |
                i < k < analyzed.len() ==> (#[trigger] analyzed[k]).0 != source.key();
        assert(is_key_of(analyzed[i].0, source));
    }
}

/// Whether a key is that of a source: its URL as it was given, and its matches.
pub open spec fn is_key_of(key: KeyView, source: ParsedView) -> bool {
    key.url == source.url.original && key.nested_installer_matches
        == source.nested_installer_matches
}

/// Each source gets its own analysis, in the order of the sources; the first source without one fails
/// them all.
pub proof fn law_analyses_in_order(sources: Seq<ParsedView>, analyzed: Seq<(KeyView, ArtifactView)>)
    ensures
        match source_analyses(sources, analyzed) {
            Ok(analyses) => analyses.len() == sources.len() && forall|i: int|
                0 <= i < sources.len() ==> source_analysis(#[trigger] sources[i], analyzed) == Ok::<
                    _,
                    ErrorSays,
                >(analyses[i]),
            Err(error) => exists|i: int|
                0 <= i < sources.len() && source_analysis(#[trigger] sources[i], analyzed) == Err::<
                    ArtifactView,
                    _,
                >(error) && forall|k: int|
                    0 <= k < i ==> source_analysis(#[trigger] sources[k], analyzed) is Ok,
        },
    decreases sources.len(),
{
    if sources.len() > 0 {
        let before = sources.drop_last();
        let last = sources.len() - 1;
        law_analyses_in_order(before, analyzed);
        assert forall|k: int| 0 <= k < before.len() implies before[k] == #[trigger] sources[k] by {}
        match source_analyses(before, analyzed) {
            Ok(analyses) => {
                assert forall|k: int| 0 <= k < last implies source_analysis(
                    #[trigger] sources[k],
                    analyzed,
                ) == Ok::<_, ErrorSays>(analyses[k]) by {
                    assert(before[k] == sources[k]);
                }
                assert(sources[last] == sources.last());
            },
            Err(error) => {
                let i = choose|i: int|
                    0 <= i < before.len() && source_analysis(#[trigger] before[i], analyzed)
                        == Err::<ArtifactView, _>(error) && forall|k: int|
                        0 <= k < i ==> source_analysis(#[trigger] before[k], analyzed) is Ok;
                assert(sources[i] == before[i]);
                assert forall|k: int| 0 <= k < i implies source_analysis(
                    #[trigger] sources[k],
                    analyzed,
                ) is Ok by {
                    assert(before[k] == sources[k]);
                }
            },
        }
    }
}

/// An entry is shown with all that it says.
pub proof fn law_shown_entry(shown: AppsAndFeaturesEntryAnalysis, entry: EntryView)
    requires
        shows_entry(shown, entry),
    ensures
        opt_text(shown.display_name) == entry.display_name,
        opt_text(shown.publisher) == entry.publisher,
        opt_text(shown.display_version) == entry.display_version,
        opt_text(shown.product_code) == entry.product_code,
        opt_text(shown.upgrade_code) == entry.upgrade_code,
        match entry.installer_type {
            Some(kind) => shown.installer_type matches Some(name) && name@ == kind.name(),
            None => shown.installer_type is None,
        },
{
}

/// An installer is shown with its locale, architecture, types, scope, the paths of its nested files and
/// all its entries, in their order.
pub proof fn law_shown_installer(shown: AnalyzedInstaller, installer: InstallerView)
    requires
        shows_installer(shown, installer),
    ensures
        opt_text(shown.locale) == installer.locale,
        shown.architecture@ == installer.architecture.name(),
        match installer.installer_type {
            Some(kind) => shown.installer_type matches Some(name) && name@ == kind.name(),
            None => shown.installer_type is None,
        },
        match installer.nested_installer_type {
            Some(kind) => shown.nested_installer_type matches Some(name) && name@ == kind.name(),
            None => shown.nested_installer_type is None,
        },
        match installer.scope {
            Some(scope) => shown.scope matches Some(name) && name@ == scope.name(),
            None => shown.scope is None,
        },
        shown.nested_installer_files@.len() == installer.nested_installer_files.len(),
        forall|i: int|
            0 <= i < installer.nested_installer_files.len() ==> (
            #[trigger] shown.nested_installer_files@[i])@
                == installer.nested_installer_files[i].relative_file_path,
        shown.apps_and_features_entries@.len() == installer.apps_and_features_entries.len(),
        forall|i: int|
            0 <= i < installer.apps_and_features_entries.len() ==> shows_entry(
                #[trigger] shown.apps_and_features_entries@[i],
                installer.apps_and_features_entries[i],
            ),
{
    let paths = installer.nested_installer_files.map_values(
        |file: crate::manifest::NestedView| file.relative_file_path,
    );
    assert(texts(shown.nested_installer_files@) == paths);
    assert forall|i: int| 0 <= i < installer.nested_installer_files.len() implies (
    #[trigger] shown.nested_installer_files@[i])@
        == installer.nested_installer_files[i].relative_file_path by {
        assert(texts(shown.nested_installer_files@)[i] == paths[i]);
    }
    assert(texts(shown.nested_installer_files@).len() == paths.len());
}

/// An analysis is shown with its URL, hash, date and versions, and all its installers, in their order.
pub proof fn law_shown_artifact(shown: AnalyzedArtifact, analysis: ArtifactView)
    requires
        shows_artifact(shown, analysis),
    ensures
        shown.url@ == analysis.url,
        shown.sha256@ == analysis.sha256,
        match analysis.release_date {
            Some(date) => shown.release_date matches Some(text) && text@ == date_text(date.days()),
            None => shown.release_date is None,
        },
        opt_text(shown.versions.file) == analysis.file_version,
        opt_text(shown.versions.product) == analysis.product_version,
        shown.installers@.len() == analysis.installers.len(),
        forall|i: int|
            0 <= i < analysis.installers.len() ==> shows_installer(
                #[trigger] shown.installers@[i],
                analysis.installers[i],
            ),
{
}

/// Of two optional values the first that is there is taken.
pub proof fn law_first_of<T>(a: T, b: Option<T>)
    ensures
        first_of(Some(a), b) == Some(a),
        first_of(None, b) == b,
{
}

} // verus!
