//! Updates: what a request asks for, which version it creates, and what it comes to.
use vstd::prelude::*;

use super::artifact::{is_first_told, law_first_told};
use crate::artifact::ArtifactView;
use crate::error::ErrorSays;
use crate::manifest::{EntryView, InstallerView};
use crate::selector::{replaced_version, replacement_of, selector_of, SelectorView};
use crate::source::{installer_url, source_of, UrlView};
use crate::text::trimmed;
use crate::types::{
    InstallerInput, InstallerSource, ReplacementSelection, UpdatePackageRequest, VersionInput,
};
use crate::update::{
    all_entries, all_installers, archive_files, created_version, detected_display_version,
    detected_file_version, detected_product_version, first_on_github, first_shown, kind_is_font,
    lemma_all_entries_concat, mode_submits, plan_of, result_of, source_urls, step_of, update_urls,
    UpdateStep,
};
use crate::versions::{highest, lemma_version_rank, version_rank, version_set, with_version};
use crate::winget::{
    closest_of, decoded_url, is_package_version, package_identifier_fault, release_notes_of,
    version_order, VersionOrder,
};

verus! {

/// The result of an update shows the identifier, the version and every change, path and text, in the
/// order of the changes. It shows the pull request where the update submits, and else none.
pub proof fn law_result(
    submit: bool,
    identifier: Seq<char>,
    version: Seq<char>,
    changes: Seq<(Seq<char>, Seq<char>)>,
    pull_request: Option<(Seq<char>, Seq<char>)>,
)
    ensures
        ({
            let result = result_of(submit, identifier, version, changes, pull_request);
            &&& result.identifier == identifier
            &&& result.version == version
            &&& result.manifests.len() == changes.len()
            &&& forall|i: int|
                0 <= i < changes.len() ==> (#[trigger] result.manifests[i]).0 == changes[i].0
                    && result.manifests[i].1 == changes[i].1
            &&& submit ==> result.pull_request == pull_request
            &&& !submit ==> result.pull_request is None
        }),
{
}

/// A pull request is created where the update submits and none was created yet.
pub proof fn law_step(submit: bool, created: bool)
    ensures
        step_of(submit, created) == UpdateStep::Submit <==> submit && !created,
        step_of(submit, created) == UpdateStep::Finish <==> !submit || created,
{
}

/// There are two modes: one generates, the other submits. Any other is refused.
pub proof fn law_modes(mode: Seq<char>)
    ensures
        mode_submits("generate"@) == Ok::<bool, ErrorSays>(false),
        mode_submits("submit"@) == Ok::<bool, ErrorSays>(true),
        mode != "generate"@ && mode != "submit"@ ==> mode_submits(mode) is Err,
{
    reveal_strlit("generate");
    reveal_strlit("submit");
    assert("generate"@.len() != "submit"@.len());
}

/// The kinds of packages: `auto` leaves open what a package is, as no kind does. Any other is refused.
pub proof fn law_kinds(kind: Seq<char>)
    ensures
        kind_is_font(None) == Ok::<Option<bool>, ErrorSays>(None),
        kind_is_font(Some("auto"@)) == Ok::<Option<bool>, ErrorSays>(None),
        kind_is_font(Some("standard"@)) == Ok::<Option<bool>, ErrorSays>(Some(false)),
        kind_is_font(Some("font"@)) == Ok::<Option<bool>, ErrorSays>(Some(true)),
        kind != "auto"@ && kind != "standard"@ && kind != "font"@ ==> kind_is_font(Some(kind)) is Err,
{
    reveal_strlit("auto");
    reveal_strlit("standard");
    reveal_strlit("font");
    assert("auto"@[0] == 'a' && "font"@[0] == 'f' && "standard"@[0] == 's');
}

/// A bare URL stands for a source with that URL and nothing else; a source stands for itself.
pub proof fn law_source_of(url: String, source: InstallerSource)
    ensures
        ({
            let bare = source_of(InstallerInput::Url(url));
            &&& bare.url@ == url@
            &&& bare.architecture is None
            &&& bare.nested_installer_matches is None
        }),
        ({
            let given = source_of(InstallerInput::Source(source));
            &&& given.url@ == source.url@
            &&& given.architecture == source.architecture
            &&& given.nested_installer_matches == source.nested_installer_matches
        }),
{
}

proof fn lemma_source_urls(sources: Seq<InstallerSource>)
    ensures
        match source_urls(sources) {
            Ok(urls) => urls.len() == sources.len() && forall|i: int|
                0 <= i < sources.len() ==> installer_url((#[trigger] sources[i]).url@) == Ok::<
                    _,
                    ErrorSays,
                >(urls[i]),
            Err(error) => exists|i: int|
                0 <= i < sources.len() && installer_url((#[trigger] sources[i]).url@) == Err::<
                    UrlView,
                    _,
                >(error) && forall|k: int|
                    0 <= k < i ==> installer_url((#[trigger] sources[k]).url@) is Ok,
        },
    decreases sources.len(),
{
    if sources.len() > 0 {
        let before = sources.drop_last();
        let last = sources.len() - 1;
        lemma_source_urls(before);
        assert forall|k: int| 0 <= k < before.len() implies before[k] == #[trigger] sources[k] by {}
        match source_urls(before) {
            Ok(urls) => {
                assert forall|k: int| 0 <= k < last implies installer_url(
                    (#[trigger] sources[k]).url@,
                ) == Ok::<_, ErrorSays>(urls[k]) by {
                    assert(before[k] == sources[k]);
                }
                assert(sources[last] == sources.last());
            },
            Err(error) => {
                let i = choose|i: int|
                    0 <= i < before.len() && installer_url((#[trigger] before[i]).url@) == Err::<
                        UrlView,
                        _,
                    >(error) && forall|k: int|
                        0 <= k < i ==> installer_url((#[trigger] before[k]).url@) is Ok;
                assert(sources[i] == before[i]);
                assert forall|k: int| 0 <= k < i implies installer_url(
                    (#[trigger] sources[k]).url@,
                ) is Ok by {
                    assert(before[k] == sources[k]);
                }
            },
        }
    }
}

/// The URLs of an update are those of its sources, one for one; the first that is not valid is the error
/// of them all, and there has to be one.
pub proof fn law_update_urls(sources: Seq<InstallerSource>)
    ensures
        match update_urls(sources) {
            Ok(urls) => 0 < urls.len() == sources.len() && forall|i: int|
                0 <= i < sources.len() ==> installer_url((#[trigger] sources[i]).url@) == Ok::<
                    _,
                    ErrorSays,
                >(urls[i]),
            Err(error) => if sources.len() == 0 {
                error == ErrorSays::Invalid("At least one URL is required"@)
            } else {
                exists|i: int|
                    0 <= i < sources.len() && installer_url((#[trigger] sources[i]).url@) == Err::<
                        UrlView,
                        _,
                    >(error) && forall|k: int|
                        0 <= k < i ==> installer_url((#[trigger] sources[k]).url@) is Ok
            },
        },
{
    lemma_source_urls(sources);
}

/// A plan says what the request says: whether to submit, the identifier, each installer in its order with
/// its URL, the release notes, and whether the package is a font.
pub proof fn law_plan_says(request: UpdatePackageRequest)
    ensures
        plan_of(request) matches Ok(plan) ==> {
            &&& (request.mode@ == "generate"@ ==> !plan.submit)
            &&& (request.mode@ == "submit"@ ==> plan.submit)
            &&& request.mode@ == "generate"@ || request.mode@ == "submit"@
            &&& plan.package_identifier == request.package_identifier@
            &&& plan.installers.len() == request.installers@.len()
            &&& forall|i: int|
                0 <= i < request.installers@.len() ==> is_source(
                    #[trigger] plan.installers[i],
                    request.installers@[i],
                )
            &&& plan.urls.len() == plan.installers.len()
            &&& forall|i: int|
                0 <= i < plan.urls.len() ==> installer_url(plan.installers[i].url@) == Ok::<
                    _,
                    ErrorSays,
                >(#[trigger] plan.urls[i])
            &&& match request.release_notes {
                None => plan.release_notes_url is None && plan.release_notes is None,
                Some(notes) => {
                    &&& match notes.url {
                        None => plan.release_notes_url is None,
                        Some(url) => decoded_url(url@) matches Ok((decoded, _))
                            && plan.release_notes_url == Some(decoded),
                    }
                    &&& match notes.text {
                        None => plan.release_notes is None,
                        Some(text) => release_notes_of(text@) matches Ok(kept) && plan.release_notes
                            == Some(kept),
                    }
                },
            }
            &&& match request.package_kind {
                None => plan.font is None,
                Some(kind) => {
                    &&& (kind@ == "auto"@ ==> plan.font is None)
                    &&& (kind@ == "standard"@ ==> plan.font == Some(false))
                    &&& (kind@ == "font"@ ==> plan.font == Some(true))
                },
            }
            &&& selector_of(request.version) == Ok::<_, ErrorSays>(plan.version_selector)
            &&& replacement_of(request.replace) == Ok::<_, ErrorSays>(plan.replace)
        },
{
    law_modes(request.mode@);
    if let Some(kind) = request.package_kind {
        law_kinds(kind@);
    }
    let sources = request.installers@.map_values(|input: InstallerInput| source_of(input));
    law_update_urls(sources);
    if let Ok(plan) = plan_of(request) {
        assert(plan.installers == sources);
        assert forall|i: int| 0 <= i < request.installers@.len() implies is_source(
            #[trigger] plan.installers[i],
            request.installers@[i],
        ) by {}
        assert forall|i: int| 0 <= i < plan.urls.len() implies installer_url(
            plan.installers[i].url@,
        ) == Ok::<_, ErrorSays>(#[trigger] plan.urls[i]) by {
            assert(installer_url(sources[i].url@) == Ok::<_, ErrorSays>(plan.urls[i]));
        }
    }
}

/// Whether a source is the one that an input stands for.
pub open spec fn is_source(source: InstallerSource, input: InstallerInput) -> bool {
    match input {
        InstallerInput::Url(url) => source.url@ == url@ && source.architecture is None
            && source.nested_installer_matches is None,
        InstallerInput::Source(given) => source.url@ == given.url@ && source.architecture
            == given.architecture && source.nested_installer_matches
            == given.nested_installer_matches,
    }
}

/// Whether every part of a request can be used: its mode, its identifier, its version, at least one URL
/// and each of them, its release notes, its replacement and its kind.
pub open spec fn is_usable(request: UpdatePackageRequest) -> bool {
    &&& request.mode@ == "generate"@ || request.mode@ == "submit"@
    &&& package_identifier_fault(request.package_identifier@) is None
    &&& selector_of(request.version) is Ok
    &&& request.installers@.len() > 0
    &&& forall|i: int|
        0 <= i < request.installers@.len() ==> installer_url(
            url_of(#[trigger] request.installers@[i]),
        ) is Ok
    &&& (request.release_notes matches Some(notes) ==> {
        &&& (notes.url matches Some(url) ==> decoded_url(url@) is Ok)
        &&& (notes.text matches Some(text) ==> release_notes_of(text@) is Ok)
    })
    &&& replacement_of(request.replace) is Ok
    &&& (request.package_kind matches Some(kind) ==> kind@ == "auto"@ || kind@ == "standard"@ || kind@
        == "font"@)
}

/// A request is accepted where every part of it can be used.
pub proof fn law_plan_accepts(request: UpdatePackageRequest)
    ensures
        is_usable(request) ==> plan_of(request) is Ok,
{
    law_modes(request.mode@);
    if let Some(kind) = request.package_kind {
        law_kinds(kind@);
    }
    let sources = request.installers@.map_values(|input: InstallerInput| source_of(input));
    law_update_urls(sources);
    if is_usable(request) {
        assert forall|i: int| 0 <= i < sources.len() implies installer_url(
            (#[trigger] sources[i]).url@,
        ) is Ok by {
            assert(installer_url(url_of(request.installers@[i])) is Ok);
        }
    }
}

/// The URL of an input.
pub open spec fn url_of(input: InstallerInput) -> Seq<char> {
    match input {
        InstallerInput::Url(url) => url@,
        InstallerInput::Source(source) => source.url@,
    }
}

/// An explicit version, be it bare or under its source, is the text that was given without the white
/// space around it, and has to be a package version.
pub proof fn law_explicit_version(input: VersionInput, text: Seq<char>)
    requires
        match input {
            VersionInput::Text(value) => value@ == text,
            VersionInput::Selection(selection) => selection.source@ == "explicit"@
                && (selection.value matches Some(value) && value@ == text),
        },
    ensures
        match selector_of(input) {
            Ok(selector) => is_package_version(trimmed(text)) && selector == SelectorView::Explicit(
                trimmed(text),
            ),
            Err(_) => !is_package_version(trimmed(text)),
        },
{
    crate::text::law_trimmed(text);
}

/// A version that the analysis tells of is named by its source, which takes no value.
pub proof fn law_detected_selectors(input: VersionInput)
    requires
        input is Selection,
    ensures
        ({
            let source = input->Selection_0.source@;
            let value = input->Selection_0.value;
            &&& source == "product"@ && value is None ==> selector_of(input) == Ok::<_, ErrorSays>(
                SelectorView::ProductVersion,
            )
            &&& source == "file"@ && value is None ==> selector_of(input) == Ok::<_, ErrorSays>(
                SelectorView::FileVersion,
            )
            &&& source == "display"@ && value is None ==> selector_of(input) == Ok::<_, ErrorSays>(
                SelectorView::DisplayVersion,
            )
            &&& source == "explicit"@ && value is None ==> selector_of(input) is Err
            &&& source != "explicit"@ && value is Some ==> selector_of(input) is Err
            &&& source != "explicit"@ && source != "product"@ && source != "file"@ && source
                != "display"@ ==> selector_of(input) is Err
        }),
{
    reveal_strlit("explicit");
    reveal_strlit("product");
    reveal_strlit("file");
    reveal_strlit("display");
    assert("explicit"@[0] == 'e' && "product"@[0] == 'p' && "file"@[0] == 'f' && "display"@[0] == 'd');
}

/// No replacement replaces nothing. One of the target `version` replaces the version that is given,
/// without the white space around it, which has to be a package version; one of the target `latest`
/// takes no value. Any other target is refused.
pub proof fn law_replacement(replacement: ReplacementSelection)
    ensures
        replacement_of(None) == Ok::<Option<Seq<char>>, ErrorSays>(None),
        ({
            let asked = replacement_of(Some(replacement));
            let target = replacement.target@;
            &&& target == "latest"@ ==> (asked is Ok <==> replacement.value is None) && (asked is Ok
                ==> asked == Ok::<_, ErrorSays>(Some("latest"@)))
            &&& target == "version"@ ==> match replacement.value {
                None => asked is Err,
                Some(value) => if is_package_version(trimmed(value@)) {
                    asked == Ok::<_, ErrorSays>(Some(trimmed(value@)))
                } else {
                    asked is Err
                },
            }
            &&& target != "latest"@ && target != "version"@ ==> asked is Err
        }),
{
    reveal_strlit("latest");
    reveal_strlit("version");
    assert("latest"@.len() != "version"@.len());
    if let Some(value) = replacement.value {
        crate::text::law_trimmed(value@);
    }
}

/// The first URL on GitHub is found, and nothing where there is none.
pub proof fn law_first_on_github(urls: Seq<UrlView>)
    ensures
        match first_on_github(urls) {
            Some(url) => exists|i: int|
                0 <= i < urls.len() && #[trigger] urls[i] == url && urls[i].host == Some(
                    "github.com"@,
                ) && forall|k: int| 0 <= k < i ==> (#[trigger] urls[k]).host != Some("github.com"@),
            None => forall|i: int|
                0 <= i < urls.len() ==> (#[trigger] urls[i]).host != Some("github.com"@),
        },
    decreases urls.len(),
{
    if urls.len() > 0 {
        let rest = urls.drop_first();
        law_first_on_github(rest);
        if urls[0].host == Some("github.com"@) {
            assert(urls[0] == urls[0]);
        } else {
            match first_on_github(rest) {
                Some(url) => {
                    let i = choose|i: int|
                        0 <= i < rest.len() && #[trigger] rest[i] == url && rest[i].host == Some(
                            "github.com"@,
                        ) && forall|k: int|
                            0 <= k < i ==> (#[trigger] rest[k]).host != Some("github.com"@);
                    assert(urls[i + 1] == rest[i]);
                    assert forall|k: int| 0 <= k < i + 1 implies (#[trigger] urls[k]).host != Some(
                        "github.com"@,
                    ) by {
                        if k > 0 {
                            assert(urls[k] == rest[k - 1]);
                        }
                    }
                },
                None => {
                    assert forall|k: int| 0 <= k < urls.len() implies (#[trigger] urls[k]).host
                        != Some("github.com"@) by {
                        if k > 0 {
                            assert(urls[k] == rest[k - 1]);
                        }
                    }
                },
            }
        }
    }
}

/// The versions that the analyses tell of: the first product version, and the first file version, that is
/// more than white space.
pub proof fn law_detected_versions(analyses: Seq<ArtifactView>)
    ensures
        is_first_told(
            Seq::new(analyses.len(), |i: int| analyses[i].product_version),
            detected_product_version(analyses),
        ),
        is_first_told(
            Seq::new(analyses.len(), |i: int| analyses[i].file_version),
            detected_file_version(analyses),
        ),
{
    let products = Seq::new(analyses.len(), |i: int| analyses[i].product_version);
    let files = Seq::new(analyses.len(), |i: int| analyses[i].file_version);
    assert(analyses.map_values(|analysis: ArtifactView| analysis.product_version) =~= products);
    assert(analyses.map_values(|analysis: ArtifactView| analysis.file_version) =~= files);
    law_first_told(products);
    law_first_told(files);
}

/// Whether an entry tells a display version that is more than white space.
pub open spec fn shows_version(entry: EntryView) -> bool {
    entry.display_version matches Some(version) && trimmed(version).len() > 0
}

/// The first display version that is more than white space is found as it is.
pub proof fn law_first_shown(entries: Seq<EntryView>)
    ensures
        match first_shown(entries) {
            Some(version) => exists|i: int|
                0 <= i < entries.len() && shows_version(#[trigger] entries[i])
                    && entries[i].display_version == Some(version) && forall|k: int|
                    0 <= k < i ==> !shows_version(#[trigger] entries[k]),
            None => forall|i: int| 0 <= i < entries.len() ==> !shows_version(#[trigger] entries[i]),
        },
    decreases entries.len(),
{
    if entries.len() > 0 {
        let rest = entries.drop_first();
        law_first_shown(rest);
        if shows_version(entries[0]) {
            assert(entries[0].display_version == first_shown(entries));
        } else {
            match first_shown(rest) {
                Some(version) => {
                    let i = choose|i: int|
                        0 <= i < rest.len() && shows_version(#[trigger] rest[i])
                            && rest[i].display_version == Some(version) && forall|k: int|
                            0 <= k < i ==> !shows_version(#[trigger] rest[k]);
                    assert(entries[i + 1] == rest[i]);
                    assert forall|k: int| 0 <= k < i + 1 implies !shows_version(
                        #[trigger] entries[k],
                    ) by {
                        if k > 0 {
                            assert(entries[k] == rest[k - 1]);
                        }
                    }
                },
                None => {
                    assert forall|k: int| 0 <= k < entries.len() implies !shows_version(
                        #[trigger] entries[k],
                    ) by {
                        if k > 0 {
                            assert(entries[k] == rest[k - 1]);
                        }
                    }
                },
            }
        }
    }
}

/// The entries of installers stand one behind the other: those of two lists are those of the first and
/// then those of the second, and those of one installer are its own. The display version of analyses is
/// the first among the entries of all their installers.
pub proof fn law_all_entries(a: Seq<InstallerView>, b: Seq<InstallerView>, one: InstallerView)
    ensures
        all_entries(Seq::empty()) == Seq::<EntryView>::empty(),
        all_entries(seq![one]) == one.apps_and_features_entries,
        all_entries(a + b) == all_entries(a) + all_entries(b),
{
    lemma_all_entries_concat(a, b);
    assert(seq![one].drop_first() =~= Seq::<InstallerView>::empty());
    assert(all_entries(seq![one].drop_first()) =~= Seq::<EntryView>::empty());
    assert(all_entries(seq![one]) =~= one.apps_and_features_entries);
}

/// The installers of analyses stand one behind the other.
pub proof fn law_all_installers(a: Seq<ArtifactView>, b: Seq<ArtifactView>, one: ArtifactView)
    ensures
        all_installers(Seq::empty()) == Seq::<InstallerView>::empty(),
        all_installers(seq![one]) == one.installers,
        all_installers(a + b) == all_installers(a) + all_installers(b),
    decreases a.len(),
{
    assert(seq![one].drop_first() =~= Seq::<ArtifactView>::empty());
    assert(all_installers(seq![one].drop_first()) =~= Seq::<InstallerView>::empty());
    assert(all_installers(seq![one]) =~= one.installers);
    if a.len() == 0 {
        assert(a + b =~= b);
        assert(all_installers(a) + all_installers(b) =~= all_installers(b));
    } else {
        law_all_installers(a.drop_first(), b, one);
        assert((a + b).drop_first() =~= a.drop_first() + b);
        assert(all_installers(a + b) =~= all_installers(a) + all_installers(b));
    }
}

/// The display version that the analyses tell of is the first among all entries of all their installers
/// that is more than white space.
pub proof fn law_detected_display_version(analyses: Seq<ArtifactView>)
    ensures
        ({
            let entries = all_entries(all_installers(analyses));
            match detected_display_version(analyses) {
                Some(version) => exists|i: int|
                    0 <= i < entries.len() && shows_version(#[trigger] entries[i])
                        && entries[i].display_version == Some(version) && forall|k: int|
                        0 <= k < i ==> !shows_version(#[trigger] entries[k]),
                None => forall|i: int|
                    0 <= i < entries.len() ==> !shows_version(#[trigger] entries[i]),
            }
        }),
{
    law_first_shown(all_entries(all_installers(analyses)));
}

/// The version that is created is the one of the source that was asked for, and of no other: the
/// explicit one as it is, and any other as the analysis found it, without the white space around it. It
/// has to be there, and to be a package version.
pub proof fn law_version_source(
    explicit: Seq<char>,
    product: Option<Seq<char>>,
    file: Option<Seq<char>>,
    display: Option<Seq<char>>,
)
    ensures
        created_version(SelectorView::Explicit(explicit), product, file, display) == Ok::<
            _,
            ErrorSays,
        >(explicit),
        is_found_version(
            created_version(SelectorView::ProductVersion, product, file, display),
            product,
        ),
        is_found_version(
            created_version(SelectorView::FileVersion, product, file, display),
            file,
        ),
        is_found_version(
            created_version(SelectorView::DisplayVersion, product, file, display),
            display,
        ),
{
}

/// Whether a version is the one that was found, where that is a package version.
pub open spec fn is_found_version(
    version: Result<Seq<char>, ErrorSays>,
    found: Option<Seq<char>>,
) -> bool {
    match found {
        Some(text) => if is_package_version(text) {
            version == Ok::<_, ErrorSays>(trimmed(text))
        } else {
            version is Err
        },
        None => version is Err,
    }
}

/// The files of an archive are those of the last analysis of its URL, and none where there is none.
pub proof fn law_archive_files(analyses: Seq<ArtifactView>, url: Seq<char>)
    ensures
        (exists|i: int| 0 <= i < analyses.len() && (#[trigger] analyses[i]).url == url) ==> exists|
            i: int,
        |
            0 <= i < analyses.len() && (#[trigger] analyses[i]).url == url && archive_files(
                analyses,
                url,
            ) == analyses[i].possible_installer_files && forall|k: int|
                i < k < analyses.len() ==> (#[trigger] analyses[k]).url != url,
        (forall|i: int| 0 <= i < analyses.len() ==> (#[trigger] analyses[i]).url != url)
            ==> archive_files(analyses, url).len() == 0,
    decreases analyses.len(),
{
    if analyses.len() > 0 {
        let before = analyses.drop_last();
        let last = analyses.len() - 1;
        law_archive_files(before, url);
        assert forall|k: int| 0 <= k < before.len() implies before[k] == #[trigger] analyses[k] by {}
        if analyses[last].url != url {
            if exists|i: int| 0 <= i < analyses.len() && (#[trigger] analyses[i]).url == url {
                let j = choose|i: int| 0 <= i < analyses.len() && (#[trigger] analyses[i]).url == url;
                assert(before[j].url == url);
                let i = choose|i: int|
                    0 <= i < before.len() && (#[trigger] before[i]).url == url && archive_files(
                        before,
                        url,
                    ) == before[i].possible_installer_files && forall|k: int|
                        i < k < before.len() ==> (#[trigger] before[k]).url != url;
                assert(analyses[i].url == url);
                assert forall|k: int| i < k < analyses.len() implies (#[trigger] analyses[k]).url
                    != url by {
                    if k < last {
                        assert(before[k].url != url);
                    }
                }
            } else {
                assert forall|k: int| 0 <= k < before.len() implies (#[trigger] before[k]).url
                    != url by {
                    assert(analyses[k].url != url);
                }
            }
        } else {
            assert(analyses[last].url == url);
        }
    }
}

/// What is replaced: nothing, where nothing is asked for, or where it is the version that is created;
/// the latest version, where that is asked for; else the version that is asked for. It has to be among
/// the versions that there are, as versions are compared.
pub proof fn law_replaced(
    replace: Option<Seq<char>>,
    versions: Seq<Seq<char>>,
    latest: Seq<char>,
    created: Seq<char>,
)
    ensures
        ({
            let replaced = replaced_version(replace, versions, latest, created);
            match replace {
                None => replaced == Ok::<Option<Seq<char>>, Seq<char>>(None),
                Some(asked) => {
                    let meant = if crate::search::lower_text(asked) == "latest"@ {
                        latest
                    } else {
                        asked
                    };
                    if meant == created {
                        replaced == Ok::<Option<Seq<char>>, Seq<char>>(None)
                    } else if exists|i: int|
                        0 <= i < version_set(versions).len() && version_order(
                            meant,
                            #[trigger] version_set(versions)[i],
                        ) == VersionOrder::Same {
                        replaced == Ok::<Option<Seq<char>>, Seq<char>>(Some(meant))
                    } else {
                        match closest_of(meant, version_set(versions)) {
                            Some(closest) => replaced == Err::<Option<Seq<char>>, Seq<char>>(
                                "Replacement version "@ + meant
                                    + " does not exist. The closest version is "@ + closest,
                            ),
                            None => replaced == Err::<Option<Seq<char>>, Seq<char>>(
                                "Replacement version "@ + meant + " does not exist"@,
                            ),
                        }
                    }
                },
            }
        }),
{
    reveal_strlit("latest");
    assert(crate::search::lower_text("latest"@) =~= "latest"@);
}

/// A version is put behind all that it comes after and before all the others; one that is the same as
/// the version there is left out.
pub proof fn law_with_version(versions: Seq<Seq<char>>, version: Seq<char>)
    ensures
        ({
            let at = version_rank(versions, version) as int;
            let new = with_version(versions, version);
            &&& 0 <= at <= versions.len()
            &&& forall|i: int|
                0 <= i < at ==> version_order(version, #[trigger] versions[i]) == VersionOrder::After
            &&& at < versions.len() ==> version_order(version, versions[at]) != VersionOrder::After
            &&& at < versions.len() && version_order(version, versions[at]) == VersionOrder::Same
                ==> new == versions
            &&& at == versions.len() || version_order(version, versions[at]) == VersionOrder::Before
                ==> new == versions.take(at) + seq![version] + versions.skip(at)
        }),
{
    lemma_version_rank(versions, version);
    let at = version_rank(versions, version) as int;
    if at == versions.len() || version_order(version, versions[at]) == VersionOrder::Before {
        assert(with_version(versions, version) =~= versions.take(at) + seq![version] + versions.skip(
            at,
        ));
    }
}

/// The versions of a list are put in order one after the other, and the highest is the last of them.
pub proof fn law_highest(versions: Seq<Seq<char>>, one: Seq<char>)
    ensures
        version_set(Seq::empty()).len() == 0,
        version_set(versions.push(one)) == with_version(version_set(versions), one),
        highest(versions) matches Some(version) ==> version_set(versions).len() > 0 && version
            == version_set(versions)[version_set(versions).len() - 1],
        highest(versions) is None ==> version_set(versions).len() == 0,
{
    assert(versions.push(one).drop_last() =~= versions);
}

} // verus!
