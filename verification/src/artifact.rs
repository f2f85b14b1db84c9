//! What the analysis of downloaded files comes to.
use vstd::prelude::*;
use vstd::string::*;

use crate::download::DownloadedFile;
use crate::error::{AnthelionError, AnthelionResult, ErrorCode, ErrorSays};
use crate::manifest::{
    copy_installers, copy_option, copy_strings, entry_views, installer_views, nested_views,
    AppsAndFeaturesEntry, Architecture, EntryView, Installer, InstallerType, InstallerView,
};
use crate::source::{parsed_views, AnalysisKey, KeyView, ParsedSource, ParsedView};
use crate::text::{joined, opt_text, str_eq, texts, trim, trimmed};
use crate::types::{
    AnalyzedArtifact, AnalyzedInstaller, AppsAndFeaturesEntryAnalysis, DetectedVersions,
};
use crate::time::{opt_date, show_date, Date};
use crate::winget::{architecture_in_url, named_in_url};

verus! {

/// What the analysis of a downloaded file comes to.
#[derive(Debug)]
pub struct ArtifactAnalysis {
    pub url: String,
    pub sha256: String,
    pub release_date: Option<Date>,
    pub file_version: Option<String>,
    pub product_version: Option<String>,
    pub installers: Vec<Installer>,
    pub possible_installer_files: Vec<String>,
}

/// What an [`ArtifactAnalysis`] says.
#[verifier::ext_equal]
pub struct ArtifactView {
    pub url: Seq<char>,
    pub sha256: Seq<char>,
    pub release_date: Option<Date>,
    pub file_version: Option<Seq<char>>,
    pub product_version: Option<Seq<char>>,
    pub installers: Seq<InstallerView>,
    pub possible_installer_files: Seq<Seq<char>>,
}

impl View for ArtifactAnalysis {
    type V = ArtifactView;

    open spec fn view(&self) -> ArtifactView {
        ArtifactView {
            url: self.url@,
            sha256: self.sha256@,
            release_date: self.release_date,
            file_version: opt_text(self.file_version),
            product_version: opt_text(self.product_version),
            installers: installer_views(self.installers@),
            possible_installer_files: texts(self.possible_installer_files@),
        }
    }
}

/// What a list of analyses says.
pub open spec fn artifact_views(analyses: Seq<ArtifactAnalysis>) -> Seq<ArtifactView> {
    analyses.map_values(|analysis: ArtifactAnalysis| analysis@)
}

impl ArtifactAnalysis {
    /// An analysis that says the same.
    pub fn copy(&self) -> (r: ArtifactAnalysis)
        ensures
            r@ == self@,
    {
        ArtifactAnalysis {
            url: self.url.clone(),
            sha256: self.sha256.clone(),
            release_date: self.release_date,
            file_version: copy_option(&self.file_version),
            product_version: copy_option(&self.product_version),
            installers: copy_installers(&self.installers),
            possible_installer_files: copy_strings(&self.possible_installer_files),
        }
    }
}

/// The first text that is more than white space, without the white space around it.
pub open spec fn first_filled(values: Seq<Seq<char>>) -> Option<Seq<char>>
    decreases values.len(),
{
    if values.len() == 0 {
        None
    } else if trimmed(values[0]).len() > 0 {
        Some(trimmed(values[0]))
    } else {
        first_filled(values.drop_first())
    }
}

/// The texts of borrowed strings.
pub open spec fn str_texts(values: Seq<&str>) -> Seq<Seq<char>> {
    values.map_values(|value: &str| value@)
}

/// The first text that is more than white space, without the white space around it.
pub fn first_non_empty(values: &Vec<&str>) -> (r: Option<String>)
    ensures
        opt_text(r) == first_filled(str_texts(values@)),
{
    let ghost all = str_texts(values@);
    let mut i: usize = 0;
    assert(all.skip(0) =~= all);
    while i < values.len()
        invariant
            i <= values.len(),
            all == str_texts(values@),
            first_filled(all) == first_filled(all.skip(i as int)),
        decreases values.len() - i,
    {
        assert(all.skip(i as int)[0] == values@[i as int]@);
        assert(all.skip(i as int).drop_first() =~= all.skip(i + 1));
        let value = trim(values[i]);
        if value.as_str().unicode_len() > 0 {
            return Some(value);
        }
        i += 1;
    }
    None
}

/// An installer inside an archive that the rules pick, with the versions of its file.
#[derive(Debug)]
pub struct MatchedInstaller {
    pub file_version: Option<String>,
    pub product_version: Option<String>,
    pub installer: Installer,
}

/// The texts among optional ones.
pub open spec fn present_texts(values: Seq<Option<Seq<char>>>) -> Seq<Seq<char>>
    decreases values.len(),
{
    if values.len() == 0 {
        Seq::empty()
    } else {
        match values.last() {
            Some(value) => present_texts(values.drop_last()).push(value),
            None => present_texts(values.drop_last()),
        }
    }
}

/// The file versions of installers that the rules pick.
pub open spec fn matched_file_versions(matched: Seq<MatchedInstaller>) -> Seq<Option<Seq<char>>> {
    matched.map_values(|m: MatchedInstaller| opt_text(m.file_version))
}

/// The product versions of installers that the rules pick.
pub open spec fn matched_product_versions(matched: Seq<MatchedInstaller>) -> Seq<Option<Seq<char>>> {
    matched.map_values(|m: MatchedInstaller| opt_text(m.product_version))
}

/// The first of two optional values that is there.
pub open spec fn first_of<T>(a: Option<T>, b: Option<T>) -> Option<T> {
    match a {
        Some(value) => Some(value),
        None => b,
    }
}

fn first_file_version(matched: &Vec<MatchedInstaller>) -> (r: Option<String>)
    ensures
        opt_text(r) == first_filled(present_texts(matched_file_versions(matched@))),
{
    let ghost all = matched_file_versions(matched@);
    let mut values: Vec<&str> = Vec::new();
    let mut i: usize = 0;
    assert(all.take(0) =~= Seq::empty());
    assert(str_texts(values@) =~= Seq::empty());
    while i < matched.len()
        invariant
            i <= matched.len(),
            all == matched_file_versions(matched@),
            str_texts(values@) == present_texts(all.take(i as int)),
        decreases matched.len() - i,
    {
        let ghost before = str_texts(values@);
        assert(all.take(i + 1).drop_last() =~= all.take(i as int));
        if let Some(version) = &matched[i].file_version {
            values.push(version.as_str());
            assert(str_texts(values@) =~= before.push(version@));
        }
        i += 1;
    }
    assert(all.take(i as int) =~= all);
    first_non_empty(&values)
}

fn first_product_version(matched: &Vec<MatchedInstaller>) -> (r: Option<String>)
    ensures
        opt_text(r) == first_filled(present_texts(matched_product_versions(matched@))),
{
    let ghost all = matched_product_versions(matched@);
    let mut values: Vec<&str> = Vec::new();
    let mut i: usize = 0;
    assert(all.take(0) =~= Seq::empty());
    assert(str_texts(values@) =~= Seq::empty());
    while i < matched.len()
        invariant
            i <= matched.len(),
            all == matched_product_versions(matched@),
            str_texts(values@) == present_texts(all.take(i as int)),
        decreases matched.len() - i,
    {
        let ghost before = str_texts(values@);
        assert(all.take(i + 1).drop_last() =~= all.take(i as int));
        if let Some(version) = &matched[i].product_version {
            values.push(version.as_str());
            assert(str_texts(values@) =~= before.push(version@));
        }
        i += 1;
    }
    assert(all.take(i as int) =~= all);
    first_non_empty(&values)
}

/// What is known of a file before the archive that it may be is searched: its versions, its
/// installers, and the files of the archive that may be installers.
pub struct FileFacts {
    pub file_version: Option<String>,
    pub product_version: Option<String>,
    pub installers: Vec<Installer>,
    /// The files of the archive that may be installers, where the file is one.
    pub archive: Option<Vec<String>>,
}

/// Whether an archive is searched: where the file is one, and rules are given.
pub fn searches_archive(facts: &FileFacts, nested_installer_matches: &Vec<String>) -> (r: bool)
    ensures
        r == (facts.archive is Some && nested_installer_matches@.len() > 0),
{
    facts.archive.is_some() && nested_installer_matches.len() > 0
}

/// An installer of a downloaded file, with what the download tells.
pub open spec fn placed(
    installer: InstallerView,
    architecture: Option<Architecture>,
    file: DownloadedFile,
) -> InstallerView {
    InstallerView {
        architecture: match architecture {
            Some(architecture) => architecture,
            None => installer.architecture,
        },
        url: file.url@.decoded,
        sha_256: file.sha_256@,
        release_date: file.last_modified,
        ..installer
    }
}

/// What the analysis of a downloaded file comes to, given what its URL names and what was found in
/// the archive where it was searched.
pub open spec fn download_analysis(
    file: DownloadedFile,
    facts: FileFacts,
    matched: Option<Seq<MatchedInstaller>>,
    named: Option<Architecture>,
) -> ArtifactView {
    let found = match matched {
        Some(matched) => matched.map_values(|m: MatchedInstaller| m.installer@),
        None => installer_views(facts.installers@),
    };
    ArtifactView {
        url: file.url@.decoded,
        sha256: file.sha_256@,
        release_date: file.last_modified,
        file_version: match matched {
            Some(matched) => first_of(
                first_filled(present_texts(matched_file_versions(matched))),
                opt_text(facts.file_version),
            ),
            None => opt_text(facts.file_version),
        },
        product_version: match matched {
            Some(matched) => first_of(
                first_filled(present_texts(matched_product_versions(matched))),
                opt_text(facts.product_version),
            ),
            None => opt_text(facts.product_version),
        },
        installers: found.map_values(
            |installer: InstallerView|
                placed(installer, first_of(file.url@.architecture, named), file),
        ),
        possible_installer_files: match facts.archive {
            Some(files) => texts(files@),
            None => Seq::empty(),
        },
    }
}

spec fn found_installers(
    facts: FileFacts,
    matched: Option<Option<Vec<MatchedInstaller>>>,
) -> Seq<InstallerView> {
    match matched {
        Some(Some(found)) => found@.map_values(|m: MatchedInstaller| m.installer@),
        _ => installer_views(facts.installers@),
    }
}

/// Puts together the analysis of a downloaded file. The outcomes of the analysis and of the search of
/// the archive are `None` where they failed.
pub fn settle_download(
    file: DownloadedFile,
    facts: Option<FileFacts>,
    matched: Option<Option<Vec<MatchedInstaller>>>,
    named: Option<Architecture>,
) -> (r: AnthelionResult<ArtifactAnalysis>)
    ensures
        match (facts, matched) {
            (None, _) => r matches Err(error) && error@ == ErrorSays::Failure(
                ErrorCode::AnalysisFailed,
                "Failed to analyze "@ + file.file_name@,
            ),
            (Some(_), Some(None)) => r matches Err(error) && error@ == ErrorSays::Failure(
                ErrorCode::AnalysisFailed,
                "Failed to analyze matching installers in "@ + file.file_name@,
            ),
            (Some(facts), Some(Some(found))) => r matches Ok(analysis) && analysis@
                == download_analysis(file, facts, Some(found@), named),
            (Some(facts), None) => r matches Ok(analysis) && analysis@ == download_analysis(
                file,
                facts,
                None,
                named,
            ),
        },
{
    let facts = match facts {
        Some(facts) => facts,
        None => {
            return Err(
                AnthelionError::failure(
                    ErrorCode::AnalysisFailed,
                    joined("Failed to analyze ", file.file_name.as_str()),
                ),
            );
        },
    };
    let ghost given = facts;
    let ghost found_views = found_installers(facts, matched);
    let mut file_version = facts.file_version;
    let mut product_version = facts.product_version;
    let mut installers = facts.installers;
    if let Some(outcome) = matched {
        let found = match outcome {
            Some(found) => found,
            None => {
                return Err(
                    AnthelionError::failure(
                        ErrorCode::AnalysisFailed,
                        joined(
                            "Failed to analyze matching installers in ",
                            file.file_name.as_str(),
                        ),
                    ),
                );
            },
        };
        if let Some(version) = first_file_version(&found) {
            file_version = Some(version);
        }
        if let Some(version) = first_product_version(&found) {
            product_version = Some(version);
        }
        installers = into_installers(found);
    }
    assert(installer_views(installers@) == found_views);
    let architecture = match file.url.override_architecture() {
        Some(architecture) => Some(architecture),
        None => named,
    };
    place_installers(&mut installers, architecture, &file);
    let possible_installer_files: Vec<String> = match facts.archive {
        Some(files) => files,
        None => Vec::new(),
    };
    assert(given.archive is None ==> texts(possible_installer_files@) =~= Seq::empty());
    assert(architecture == first_of(file.url@.architecture, named));
    assert(installer_views(installers@) =~= found_views.map_values(
        |installer: InstallerView|
            placed(installer, first_of(file.url@.architecture, named), file),
    ));
    Ok(
        ArtifactAnalysis {
            url: file.url.decoded,
            sha256: file.sha_256,
            release_date: file.last_modified,
            file_version,
            product_version,
            installers,
            possible_installer_files,
        },
    )
}

fn into_installers(matched: Vec<MatchedInstaller>) -> (r: Vec<Installer>)
    ensures
        installer_views(r@) == matched@.map_values(|m: MatchedInstaller| m.installer@),
{
    let ghost given = matched@;
    let ghost want = given.map_values(|m: MatchedInstaller| m.installer@);
    let mut out: Vec<Installer> = Vec::new();
    assert(installer_views(out@) =~= want.take(0));
    for m in it: matched.into_iter()
        invariant
            it.seq() == given,
            want == given.map_values(|m: MatchedInstaller| m.installer@),
            installer_views(out@) == want.take(it.index() as int),
    {
        let ghost i = it.index() as int;
        let ghost before = installer_views(out@);
        assert(want[i] == m.installer@);
        out.push(m.installer);
        assert(installer_views(out@) =~= before.push(want[i]));
        assert(want.take(i + 1) =~= want.take(i).push(want[i]));
    }
    assert(want.take(given.len() as int) =~= want);
    out
}

fn place_installers(
    installers: &mut Vec<Installer>,
    architecture: Option<Architecture>,
    file: &DownloadedFile,
)
    ensures
        final(installers)@.len() == old(installers)@.len(),
        forall|k: int|
            0 <= k < old(installers)@.len() ==> (#[trigger] final(installers)@[k])@ == placed(
                old(installers)@[k]@,
                architecture,
                *file,
            ),
{
    let total: usize = installers.len();
    let mut i: usize = 0;
    while i < total
        invariant
            i <= total == installers@.len() == old(installers)@.len(),
            forall|k: int|
                0 <= k < i ==> (#[trigger] installers@[k])@ == placed(
                    old(installers)@[k]@,
                    architecture,
                    *file,
                ),
            forall|k: int| i <= k < total ==> (#[trigger] installers@[k]) == old(installers)@[k],
        decreases total - i,
    {
        if let Some(architecture) = architecture {
            installers[i].architecture = architecture;
        }
        installers[i].url = file.url.decoded.clone();
        installers[i].sha_256 = file.sha_256.clone();
        installers[i].release_date = file.last_modified;
        i += 1;
    }
}

/// The analysis of a downloaded file, given the outcomes of the analysis and of the search of the
/// archive.
pub fn analyze_download(
    file: DownloadedFile,
    facts: Option<FileFacts>,
    matched: Option<Option<Vec<MatchedInstaller>>>,
) -> (r: AnthelionResult<ArtifactAnalysis>)
    ensures
        match (facts, matched) {
            (None, _) => r matches Err(error) && error@ == ErrorSays::Failure(
                ErrorCode::AnalysisFailed,
                "Failed to analyze "@ + file.file_name@,
            ),
            (Some(_), Some(None)) => r matches Err(error) && error@ == ErrorSays::Failure(
                ErrorCode::AnalysisFailed,
                "Failed to analyze matching installers in "@ + file.file_name@,
            ),
            (Some(facts), Some(Some(found))) => r matches Ok(analysis) && analysis@
                == download_analysis(
                file,
                facts,
                Some(found@),
                named_in_url(file.url@.decoded),
            ),
            (Some(facts), None) => r matches Ok(analysis) && analysis@ == download_analysis(
                file,
                facts,
                None,
                named_in_url(file.url@.decoded),
            ),
        },
{
    let named = match file.url.override_architecture() {
        Some(_) => None,
        None => architecture_in_url(file.url.as_str()),
    };
    settle_download(file, facts, matched, named)
}

/// What analyses with their keys say.
pub open spec fn keyed_views(analyzed: Seq<(AnalysisKey, ArtifactAnalysis)>) -> Seq<
    (KeyView, ArtifactView),
> {
    analyzed.map_values(|entry: (AnalysisKey, ArtifactAnalysis)| (entry.0@, entry.1@))
}

/// The last analysis with a key.
pub open spec fn analysis_for(analyzed: Seq<(KeyView, ArtifactView)>, key: KeyView) -> Option<
    ArtifactView,
>
    decreases analyzed.len(),
{
    if analyzed.len() == 0 {
        None
    } else if analyzed.last().0 == key {
        Some(analyzed.last().1)
    } else {
        analysis_for(analyzed.drop_last(), key)
    }
}

/// An analysis whose installers are for the architecture that was asked for, where one was.
pub open spec fn for_architecture(
    analysis: ArtifactView,
    architecture: Option<Architecture>,
) -> ArtifactView {
    match architecture {
        None => analysis,
        Some(architecture) => ArtifactView {
            installers: analysis.installers.map_values(
                |installer: InstallerView| InstallerView { architecture, ..installer },
            ),
            ..analysis
        },
    }
}

/// The analysis of a source.
pub open spec fn source_analysis(
    source: ParsedView,
    analyzed: Seq<(KeyView, ArtifactView)>,
) -> Result<ArtifactView, ErrorSays> {
    match analysis_for(analyzed, source.key()) {
        Some(analysis) => Ok(for_architecture(analysis, source.architecture)),
        None => Err(
            ErrorSays::Failure(
                ErrorCode::AnalysisFailed,
                "No analysis was returned for "@ + source.url.decoded,
            ),
        ),
    }
}

/// The analyses of sources, in their order, or the error of the first that has none.
pub open spec fn source_analyses(
    sources: Seq<ParsedView>,
    analyzed: Seq<(KeyView, ArtifactView)>,
) -> Result<Seq<ArtifactView>, ErrorSays>
    decreases sources.len(),
{
    if sources.len() == 0 {
        Ok(Seq::empty())
    } else {
        match source_analyses(sources.drop_last(), analyzed) {
            Err(error) => Err(error),
            Ok(before) => match source_analysis(sources.last(), analyzed) {
                Err(error) => Err(error),
                Ok(analysis) => Ok(before.push(analysis)),
            },
        }
    }
}

fn same_texts(a: &Vec<String>, b: &Vec<String>) -> (r: bool)
    ensures
        r == (texts(a@) == texts(b@)),
{
    if a.len() != b.len() {
        assert(texts(a@).len() != texts(b@).len());
        return false;
    }
    let mut i: usize = 0;
    while i < a.len()
        invariant
            i <= a.len() == b.len(),
            forall|k: int| 0 <= k < i ==> (#[trigger] texts(a@)[k]) == texts(b@)[k],
        decreases a.len() - i,
    {
        if !str_eq(a[i].as_str(), b[i].as_str()) {
            assert(texts(a@)[i as int] != texts(b@)[i as int]);
            return false;
        }
        i += 1;
    }
    assert(texts(a@) =~= texts(b@));
    true
}

/// Whether two keys say the same.
pub fn same_key(a: &AnalysisKey, b: &AnalysisKey) -> (r: bool)
    ensures
        r == (a@ == b@),
{
    str_eq(a.url.as_str(), b.url.as_str()) && same_texts(
        &a.nested_installer_matches,
        &b.nested_installer_matches,
    )
}

fn find_analysis<'a>(
    analyzed: &'a Vec<(AnalysisKey, ArtifactAnalysis)>,
    key: &AnalysisKey,
) -> (r: Option<&'a ArtifactAnalysis>)
    ensures
        analysis_for(keyed_views(analyzed@), key@) == match r {
            Some(analysis) => Some(analysis@),
            None => None::<ArtifactView>,
        },
{
    let ghost all = keyed_views(analyzed@);
    let mut i: usize = analyzed.len();
    assert(all.take(i as int) =~= all);
    while i > 0
        invariant
            i <= analyzed.len(),
            all == keyed_views(analyzed@),
            analysis_for(all, key@) == analysis_for(all.take(i as int), key@),
        decreases i,
    {
        let ghost part = all.take(i as int);
        assert(part.last() == (analyzed@[i - 1].0@, analyzed@[i - 1].1@));
        assert(part.drop_last() =~= all.take(i - 1));
        if same_key(&analyzed[i - 1].0, key) {
            return Some(&analyzed[i - 1].1);
        }
        i -= 1;
    }
    None
}

fn set_architecture(installers: &mut Vec<Installer>, architecture: Architecture)
    ensures
        installer_views(final(installers)@) == installer_views(old(installers)@).map_values(
            |installer: InstallerView| InstallerView { architecture, ..installer },
        ),
{
    let ghost want = installer_views(installers@).map_values(
        |installer: InstallerView| InstallerView { architecture, ..installer },
    );
    let total: usize = installers.len();
    let mut i: usize = 0;
    while i < total
        invariant
            i <= total == installers@.len() == old(installers)@.len(),
            forall|k: int|
                0 <= k < i ==> (#[trigger] installers@[k])@ == (InstallerView {
                    architecture,
                    ..old(installers)@[k]@
                }),
            forall|k: int| i <= k < total ==> (#[trigger] installers@[k]) == old(installers)@[k],
        decreases total - i,
    {
        installers[i].architecture = architecture;
        i += 1;
    }
    assert(installer_views(installers@) =~= want);
}

proof fn lemma_source_analyses_error(
    sources: Seq<ParsedView>,
    analyzed: Seq<(KeyView, ArtifactView)>,
    i: int,
)
    requires
        0 <= i <= sources.len(),
        source_analyses(sources.take(i), analyzed) is Err,
    ensures
        source_analyses(sources, analyzed) == source_analyses(sources.take(i), analyzed),
    decreases sources.len() - i,
{
    if i < sources.len() {
        assert(sources.take(i + 1).drop_last() =~= sources.take(i));
        lemma_source_analyses_error(sources, analyzed, i + 1);
    } else {
        assert(sources.take(i) =~= sources);
    }
}

/// Gives each source its analysis, in the order of the sources.
pub fn assign_analyses(
    sources: &Vec<ParsedSource>,
    analyzed: &Vec<(AnalysisKey, ArtifactAnalysis)>,
) -> (r: AnthelionResult<Vec<ArtifactAnalysis>>)
    ensures
        source_analyses(parsed_views(sources@), keyed_views(analyzed@)) == match r {
            Ok(analyses) => Ok::<Seq<ArtifactView>, ErrorSays>(artifact_views(analyses@)),
            Err(error) => Err(error@),
        },
{
    let ghost views = parsed_views(sources@);
    let ghost all = keyed_views(analyzed@);
    let mut out: Vec<ArtifactAnalysis> = Vec::new();
    let mut i: usize = 0;
    assert(views.take(0) =~= Seq::empty());
    assert(artifact_views(out@) =~= Seq::empty());
    while i < sources.len()
        invariant
            i <= sources.len(),
            views == parsed_views(sources@),
            all == keyed_views(analyzed@),
            source_analyses(views.take(i as int), all) == Ok::<_, ErrorSays>(artifact_views(out@)),
        decreases sources.len() - i,
    {
        let ghost before = artifact_views(out@);
        assert(views.take(i + 1).drop_last() =~= views.take(i as int));
        assert(views.take(i + 1).last() == sources@[i as int]@);
        let key = sources[i].key();
        match find_analysis(analyzed, &key) {
            Some(found) => {
                let mut analysis = found.copy();
                if let Some(architecture) = sources[i].architecture {
                    set_architecture(&mut analysis.installers, architecture);
                }
                assert(analysis@ == for_architecture(found@, sources@[i as int].architecture));
                out.push(analysis);
                assert(artifact_views(out@) =~= before.push(analysis@));
            },
            None => {
                proof {
                    lemma_source_analyses_error(views, all, i + 1);
                }
                return Err(
                    AnthelionError::failure(
                        ErrorCode::AnalysisFailed,
                        joined("No analysis was returned for ", sources[i].url.as_str()),
                    ),
                );
            },
        }
        i += 1;
    }
    assert(views.take(i as int) =~= views);
    Ok(out)
}

/// Where every analysis that is needed was made, every source gets the analysis of its key, for the
/// architecture that was asked for.
pub proof fn law_source_analyses(sources: Seq<ParsedView>, analyzed: Seq<(KeyView, ArtifactView)>)
    requires
        forall|i: int|
            0 <= i < sources.len() ==> analysis_for(analyzed, (#[trigger] sources[i]).key()) is Some,
    ensures
        source_analyses(sources, analyzed) matches Ok(analyses) && analyses.len() == sources.len()
            && forall|i: int|
            0 <= i < sources.len() ==> (#[trigger] analyses[i]) == for_architecture(
                analysis_for(analyzed, sources[i].key()).unwrap(),
                sources[i].architecture,
            ),
    decreases sources.len(),
{
    if sources.len() > 0 {
        let before = sources.drop_last();
        assert forall|i: int| 0 <= i < before.len() implies analysis_for(
            analyzed,
            (#[trigger] before[i]).key(),
        ) is Some by {
            assert(before[i] == sources[i]);
        }
        law_source_analyses(before, analyzed);
        assert(analysis_for(analyzed, sources[sources.len() - 1].key()) is Some);
    }
}

/// The name of an installer type, where there is one.
pub open spec fn shown_type(installer_type: Option<InstallerType>) -> Option<Seq<char>> {
    match installer_type {
        Some(installer_type) => Some(installer_type.name()),
        None => None,
    }
}

/// Whether an entry that is shown says what an entry says.
pub open spec fn shows_entry(shown: AppsAndFeaturesEntryAnalysis, entry: EntryView) -> bool {
    &&& opt_text(shown.display_name) == entry.display_name
    &&& opt_text(shown.publisher) == entry.publisher
    &&& opt_text(shown.display_version) == entry.display_version
    &&& opt_text(shown.product_code) == entry.product_code
    &&& opt_text(shown.upgrade_code) == entry.upgrade_code
    &&& opt_text(shown.installer_type) == shown_type(entry.installer_type)
}

/// Whether an installer that is shown says what an installer says.
pub open spec fn shows_installer(shown: AnalyzedInstaller, installer: InstallerView) -> bool {
    &&& opt_text(shown.locale) == installer.locale
    &&& shown.architecture@ == installer.architecture.name()
    &&& opt_text(shown.installer_type) == shown_type(installer.installer_type)
    &&& opt_text(shown.nested_installer_type) == shown_type(installer.nested_installer_type)
    &&& texts(shown.nested_installer_files@) == installer.nested_installer_files.map_values(
        |file: crate::manifest::NestedView| file.relative_file_path,
    )
    &&& shown.apps_and_features_entries@.len() == installer.apps_and_features_entries.len()
    &&& forall|i: int|
        0 <= i < installer.apps_and_features_entries.len() ==> shows_entry(
            #[trigger] shown.apps_and_features_entries@[i],
            installer.apps_and_features_entries[i],
        )
    &&& opt_text(shown.scope) == match installer.scope {
        Some(scope) => Some(scope.name()),
        None => None,
    }
}

/// Whether an artifact that is shown says what an analysis says.
pub open spec fn shows_artifact(shown: AnalyzedArtifact, analysis: ArtifactView) -> bool {
    &&& shown.url@ == analysis.url
    &&& shown.sha256@ == analysis.sha256
    &&& opt_text(shown.release_date) == opt_date(analysis.release_date)
    &&& opt_text(shown.versions.file) == analysis.file_version
    &&& opt_text(shown.versions.product) == analysis.product_version
    &&& shown.installers@.len() == analysis.installers.len()
    &&& forall|i: int|
        0 <= i < analysis.installers.len() ==> shows_installer(
            #[trigger] shown.installers@[i],
            analysis.installers[i],
        )
}

fn show_type(installer_type: Option<InstallerType>) -> (r: Option<String>)
    ensures
        opt_text(r) == shown_type(installer_type),
{
    match installer_type {
        Some(installer_type) => Some(installer_type.as_str().to_owned()),
        None => None,
    }
}

fn show_entry(entry: &AppsAndFeaturesEntry) -> (r: AppsAndFeaturesEntryAnalysis)
    ensures
        shows_entry(r, entry@),
{
    AppsAndFeaturesEntryAnalysis {
        display_name: copy_option(&entry.display_name),
        publisher: copy_option(&entry.publisher),
        display_version: copy_option(&entry.display_version),
        product_code: copy_option(&entry.product_code),
        upgrade_code: copy_option(&entry.upgrade_code),
        installer_type: show_type(entry.installer_type),
    }
}

impl AnalyzedInstaller {
    /// An installer as callers are shown it.
    pub fn from_installer(installer: &Installer) -> (r: AnalyzedInstaller)
        ensures
            shows_installer(r, installer@),
    {
        let files = &installer.nested_installer_files;
        let ghost paths = nested_views(files@).map_values(
            |file: crate::manifest::NestedView| file.relative_file_path,
        );
        let mut nested_installer_files: Vec<String> = Vec::new();
        let mut i: usize = 0;
        assert(texts(nested_installer_files@) =~= paths.take(0));
        while i < files.len()
            invariant
                i <= files.len(),
                paths == nested_views(files@).map_values(
                    |file: crate::manifest::NestedView| file.relative_file_path,
                ),
                texts(nested_installer_files@) == paths.take(i as int),
            decreases files.len() - i,
        {
            let ghost before = texts(nested_installer_files@);
            nested_installer_files.push(files[i].relative_file_path.clone());
            i += 1;
            assert(texts(nested_installer_files@) =~= before.push(
                files@[i - 1].relative_file_path@,
            ));
            assert(paths.take(i as int) =~= paths.take(i - 1).push(paths[i - 1]));
        }
        assert(paths.take(i as int) =~= paths);
        let entries = &installer.apps_and_features_entries;
        let mut apps_and_features_entries: Vec<AppsAndFeaturesEntryAnalysis> = Vec::new();
        let mut k: usize = 0;
        while k < entries.len()
            invariant
                k <= entries.len(),
                apps_and_features_entries@.len() == k,
                forall|j: int|
                    0 <= j < k ==> shows_entry(
                        #[trigger] apps_and_features_entries@[j],
                        entry_views(entries@)[j],
                    ),
            decreases entries.len() - k,
        {
            apps_and_features_entries.push(show_entry(&entries[k]));
            k += 1;
        }
        AnalyzedInstaller {
            locale: copy_option(&installer.locale),
            architecture: installer.architecture.as_str().to_owned(),
            installer_type: show_type(installer.installer_type),
            nested_installer_type: show_type(installer.nested_installer_type),
            nested_installer_files,
            apps_and_features_entries,
            scope: match installer.scope {
                Some(scope) => Some(scope.as_str().to_owned()),
                None => None,
            },
        }
    }
}

impl AnalyzedArtifact {
    /// An analysis as callers are shown it.
    pub fn from_analysis(analysis: &ArtifactAnalysis) -> (r: AnalyzedArtifact)
        ensures
            shows_artifact(r, analysis@),
    {
        let found = &analysis.installers;
        let mut installers: Vec<AnalyzedInstaller> = Vec::new();
        let mut i: usize = 0;
        while i < found.len()
            invariant
                i <= found.len(),
                installers@.len() == i,
                forall|k: int|
                    0 <= k < i ==> shows_installer(
                        #[trigger] installers@[k],
                        installer_views(found@)[k],
                    ),
            decreases found.len() - i,
        {
            installers.push(AnalyzedInstaller::from_installer(&found[i]));
            i += 1;
        }
        AnalyzedArtifact {
            url: analysis.url.clone(),
            sha256: analysis.sha256.clone(),
            release_date: show_date(&analysis.release_date),
            versions: DetectedVersions {
                file: copy_option(&analysis.file_version),
                product: copy_option(&analysis.product_version),
            },
            installers,
        }
    }
}

} // verus!
