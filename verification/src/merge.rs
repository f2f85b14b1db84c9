//! How the installers of a new version take after those of the one before.
use vstd::prelude::*;
use vstd::string::*;

use crate::analyzer::{
    extension, extension_before, extension_of, lemma_stripped, stripped, stripped_len,
};
use crate::manifest::{
    copy_option, installer_views, nested_views, Architecture, Installer, InstallerType,
    InstallerView, NestedInstallerFile, NestedView, Scope,
};
use crate::search::{lower_text, to_ascii_lowercase};
use crate::text::{chars_of, opt_text, str_eq, string_of, texts};

verus! {

/// What a manifest says of all its installers.
#[derive(Debug)]
pub struct ManifestFacts {
    pub installer_type: Option<InstallerType>,
    pub nested_installer_type: Option<InstallerType>,
    pub scope: Option<Scope>,
}

/// An installer with what its manifest says of all installers.
pub open spec fn inherited(installer: InstallerView, manifest: ManifestFacts) -> InstallerView {
    InstallerView {
        installer_type: if manifest.installer_type is Some {
            manifest.installer_type
        } else {
            installer.installer_type
        },
        nested_installer_type: if manifest.nested_installer_type is Some {
            manifest.nested_installer_type
        } else {
            installer.nested_installer_type
        },
        scope: if manifest.scope is Some {
            manifest.scope
        } else {
            installer.scope
        },
        ..installer
    }
}

/// Gives each installer what its manifest says of all installers.
pub fn inherit(installers: &mut Vec<Installer>, manifest: &ManifestFacts)
    ensures
        installer_views(final(installers)@) == installer_views(old(installers)@).map_values(
            |installer: InstallerView| inherited(installer, *manifest),
        ),
{
    let ghost want = installer_views(installers@).map_values(
        |installer: InstallerView| inherited(installer, *manifest),
    );
    let total: usize = installers.len();
    let mut i: usize = 0;
    while i < total
        invariant
            i <= total == installers@.len() == old(installers)@.len(),
            forall|k: int|
                0 <= k < i ==> (#[trigger] installers@[k])@ == inherited(
                    old(installers)@[k]@,
                    *manifest,
                ),
            forall|k: int| i <= k < total ==> (#[trigger] installers@[k]) == old(installers)@[k],
        decreases total - i,
    {
        if manifest.installer_type.is_some() {
            installers[i].installer_type = manifest.installer_type;
        }
        if manifest.nested_installer_type.is_some() {
            installers[i].nested_installer_type = manifest.nested_installer_type;
        }
        if manifest.scope.is_some() {
            installers[i].scope = manifest.scope;
        }
        i += 1;
    }
    assert(installer_views(installers@) =~= want);
}

/// Whether a URL occurs more than once among those of installers.
pub open spec fn is_shared_url(installers: Seq<InstallerView>, url: Seq<char>) -> bool {
    exists|i: int, j: int|
        0 <= i < j < installers.len() && (#[trigger] installers[i]).url == url && (
        #[trigger] installers[j]).url == url
}

/// Whether a URL occurs more than once among those of installers.
pub fn shares_url(installers: &Vec<Installer>, url: &str) -> (r: bool)
    ensures
        r == is_shared_url(installer_views(installers@), url@),
{
    let ghost all = installer_views(installers@);
    let mut seen = false;
    let ghost mut first: int = 0;
    let mut i: usize = 0;
    while i < installers.len()
        invariant
            i <= installers.len(),
            all == installer_views(installers@),
            seen ==> 0 <= first < i && all[first].url == url@,
            seen ==> forall|k: int| 0 <= k < i && k != first ==> (#[trigger] all[k]).url != url@,
            !seen ==> forall|k: int| 0 <= k < i ==> (#[trigger] all[k]).url != url@,
        decreases installers.len() - i,
    {
        assert(all[i as int] == installers@[i as int]@);
        if str_eq(installers[i].url.as_str(), url) {
            if seen {
                assert(all[first].url == url@ && all[i as int].url == url@);
                return true;
            }
            seen = true;
            proof {
                first = i as int;
            }
        }
        i += 1;
    }
    false
}

/// The type of a merged installer. What was portable stays so, and what is found to be portable may
/// well be an installer that is not known, so the type before it is kept.
pub open spec fn merged_type(
    previous: Option<InstallerType>,
    new: Option<InstallerType>,
) -> Option<InstallerType> {
    if previous == Some(InstallerType::Portable) || new == Some(InstallerType::Portable) {
        previous
    } else {
        new
    }
}

/// The type of a merged installer.
pub fn merge_type(
    previous: Option<InstallerType>,
    new: Option<InstallerType>,
) -> (r: Option<InstallerType>)
    ensures
        r == merged_type(previous, new),
{
    match previous {
        Some(InstallerType::Portable) => previous,
        _ => match new {
            Some(InstallerType::Portable) => previous,
            _ => new,
        },
    }
}

/// The least number of insertions, deletions and substitutions of a character that turn one text into
/// another.
pub open spec fn edit_distance(a: Seq<char>, b: Seq<char>) -> nat
    decreases a.len() + b.len(),
{
    if a.len() == 0 {
        b.len()
    } else if b.len() == 0 {
        a.len()
    } else {
        let deleted = edit_distance(a.drop_last(), b) + 1;
        let inserted = edit_distance(a, b.drop_last()) + 1;
        let substituted = edit_distance(a.drop_last(), b.drop_last()) + if a.last() == b.last() {
            0nat
        } else {
            1nat
        };
        if deleted <= inserted && deleted <= substituted {
            deleted
        } else if inserted <= substituted {
            inserted
        } else {
            substituted
        }
    }
}

/// `strsim::levenshtein` gives the least number of insertions, deletions and substitutions of a
/// character that turn one text into the other.
#[verifier::external_body]
fn levenshtein(a: &str, b: &str) -> (r: usize)
    ensures
        r == edit_distance(a@, b@),
{
    strsim::levenshtein(a, b)
}

/// Whether a path is the first of those that are closest to another.
pub open spec fn is_closest(paths: Seq<Seq<char>>, path: Seq<char>, at: int) -> bool {
    &&& 0 <= at < paths.len()
    &&& forall|k: int|
        0 <= k < paths.len() ==> edit_distance(paths[at], path) <= edit_distance(
            #[trigger] paths[k],
            path,
        )
    &&& forall|k: int|
        0 <= k < at ==> edit_distance(paths[at], path) < edit_distance(#[trigger] paths[k], path)
}

/// The first of the paths that are closest to another.
pub open spec fn closest_path(paths: Seq<Seq<char>>, path: Seq<char>) -> Option<Seq<char>> {
    if paths.len() == 0 {
        None
    } else {
        Some(paths[choose|at: int| is_closest(paths, path, at)])
    }
}

proof fn lemma_closest_unique(paths: Seq<Seq<char>>, path: Seq<char>, a: int, b: int)
    requires
        is_closest(paths, path, a),
        is_closest(paths, path, b),
    ensures
        a == b,
{
    assert(edit_distance(paths[a], path) <= edit_distance(paths[b], path));
    assert(edit_distance(paths[b], path) <= edit_distance(paths[a], path));
    if a < b {
        assert(edit_distance(paths[b], path) < edit_distance(paths[a], path));
    } else if b < a {
        assert(edit_distance(paths[a], path) < edit_distance(paths[b], path));
    }
}

/// Whether a number is the first of the smallest of a list.
pub open spec fn is_first_smallest(numbers: Seq<usize>, at: int) -> bool {
    &&& 0 <= at < numbers.len()
    &&& forall|k: int| 0 <= k < numbers.len() ==> numbers[at] <= #[trigger] numbers[k]
    &&& forall|k: int| 0 <= k < at ==> numbers[at] < #[trigger] numbers[k]
}

/// The place of the first of the smallest numbers of a list.
pub fn first_smallest(numbers: &Vec<usize>) -> (r: Option<usize>)
    ensures
        match r {
            Some(at) => is_first_smallest(numbers@, at as int),
            None => numbers@.len() == 0,
        },
{
    if numbers.len() == 0 {
        return None;
    }
    let mut best: usize = 0;
    let mut i: usize = 1;
    while i < numbers.len()
        invariant
            best < i <= numbers.len(),
            forall|k: int| 0 <= k < i ==> numbers@[best as int] <= #[trigger] numbers@[k],
            forall|k: int| 0 <= k < best ==> numbers@[best as int] < #[trigger] numbers@[k],
        decreases numbers.len() - i,
    {
        if numbers[i] < numbers[best] {
            best = i;
        }
        i += 1;
    }
    Some(best)
}

fn find_closest(paths: &Vec<String>, path: &str) -> (r: Option<usize>)
    ensures
        match r {
            Some(at) => at < paths@.len() && closest_path(texts(paths@), path@) == Some(
                paths@[at as int]@,
            ),
            None => paths@.len() == 0,
        },
{
    let ghost all = texts(paths@);
    let mut distances: Vec<usize> = Vec::new();
    let mut i: usize = 0;
    while i < paths.len()
        invariant
            i <= paths.len(),
            all == texts(paths@),
            distances@.len() == i,
            forall|k: int| 0 <= k < i ==> distances@[k] == edit_distance(#[trigger] all[k], path@),
        decreases paths.len() - i,
    {
        assert(all[i as int] == paths@[i as int]@);
        distances.push(levenshtein(paths[i].as_str(), path));
        i += 1;
    }
    let best = first_smallest(&distances);
    proof {
        if let Some(best) = best {
            assert(is_closest(all, path@, best as int)) by {
                assert forall|k: int| 0 <= k < all.len() implies edit_distance(
                    all[best as int],
                    path@,
                ) <= edit_distance(#[trigger] all[k], path@) by {
                    assert(distances@[best as int] <= distances@[k]);
                }
                assert forall|k: int| 0 <= k < best implies edit_distance(all[best as int], path@)
                    < edit_distance(#[trigger] all[k], path@) by {
                    assert(distances@[best as int] < distances@[k]);
                }
            }
            let at = choose|at: int| is_closest(all, path@, at);
            lemma_closest_unique(all, path@, at, best as int);
        }
    }
    best
}

/// A path whose extension is in lower case.
pub open spec fn with_lower_extension(path: Seq<char>) -> Seq<char> {
    match extension(path) {
        Some(name) => {
            let end = stripped(path).len();
            path.take(end - name.len()) + lower_text(name) + path.skip(end as int)
        },
        None => path,
    }
}

proof fn lemma_extension_len(path: Seq<char>, end: int)
    requires
        0 <= end <= path.len(),
    ensures
        extension_before(path, end) matches Some(name) ==> name.len() <= path.len()
            && name == path.skip(path.len() - name.len()),
    decreases end,
{
    if end > 0 {
        lemma_extension_len(path, end - 1);
        if path[end - 1] == '.' {
            let name = path.skip(end);
            assert(path.skip(path.len() - name.len()) =~= name);
        }
    }
}

/// A path whose extension is in lower case.
pub fn lowercase_extension(path: &str) -> (r: String)
    ensures
        r@ == with_lower_extension(path@),
{
    proof {
        lemma_extension_len(stripped(path@), stripped(path@).len() as int);
        lemma_stripped(path@);
    }
    match extension_of(path) {
        Some(name) => {
            let chars = chars_of(path);
            let total: usize = chars.len();
            let end: usize = stripped_len(&chars);
            let n: usize = name.as_str().unicode_len();
            let mut out = string_of(&chars, 0, end - n);
            assert(out@ =~= path@.take(end - name@.len()));
            out.append(to_ascii_lowercase(name.as_str()).as_str());
            let rest = string_of(&chars, end, total);
            assert(rest@ =~= path@.skip(end as int));
            out.append(rest.as_str());
            out
        },
        None => path.to_owned(),
    }
}

/// A nested file, with its path in the form in which paths are compared.
#[derive(Debug)]
pub struct NestedCandidate {
    pub file: NestedInstallerFile,
    pub normalized_path: String,
}

/// Whether a list holds a path.
pub open spec fn holds_path(paths: Seq<Seq<char>>, path: Seq<char>) -> bool {
    exists|i: int| 0 <= i < paths.len() && #[trigger] paths[i] == path
}

/// A nested file as it is in the new archive: as it was, where the archive has it; or else under the
/// closest path that the archive has.
pub open spec fn fixed_file(candidate: NestedCandidate, paths: Seq<Seq<char>>) -> Option<NestedView> {
    if holds_path(paths, candidate.normalized_path@) {
        Some(candidate.file@)
    } else {
        match closest_path(paths, candidate.file@.relative_file_path) {
            Some(path) => Some(
                NestedView {
                    relative_file_path: with_lower_extension(path),
                    ..candidate.file@
                },
            ),
            None => None,
        }
    }
}

/// What becomes of a nested file: it stays as it is, where there is no archive.
pub open spec fn kept_file(candidate: NestedCandidate, paths: Option<Seq<Seq<char>>>) -> Option<
    NestedView,
> {
    match paths {
        None => Some(candidate.file@),
        Some(list) => fixed_file(candidate, list),
    }
}

/// Files with one more, where they do not hold it yet.
pub open spec fn with_file(files: Seq<NestedView>, file: NestedView) -> Seq<NestedView> {
    if files.contains(file) {
        files
    } else {
        files.push(file)
    }
}

/// The nested files as they are in the new archive, each once, in the order in which they first
/// come.
pub open spec fn fixed_files(candidates: Seq<NestedCandidate>, paths: Option<Seq<Seq<char>>>) -> Seq<
    NestedView,
>
    decreases candidates.len(),
{
    if candidates.len() == 0 {
        Seq::empty()
    } else {
        let before = fixed_files(candidates.drop_last(), paths);
        match kept_file(candidates.last(), paths) {
            Some(file) => with_file(before, file),
            None => before,
        }
    }
}

fn same_option(a: &Option<String>, b: &Option<String>) -> (r: bool)
    ensures
        r == (opt_text(*a) == opt_text(*b)),
{
    match (a, b) {
        (Some(a), Some(b)) => str_eq(a.as_str(), b.as_str()),
        (None, None) => true,
        _ => false,
    }
}

fn same_file(a: &NestedInstallerFile, b: &NestedInstallerFile) -> (r: bool)
    ensures
        r == (a@ == b@),
{
    str_eq(a.relative_file_path.as_str(), b.relative_file_path.as_str()) && same_option(
        &a.portable_command_alias,
        &b.portable_command_alias,
    )
}

fn add_file(files: &mut Vec<NestedInstallerFile>, file: NestedInstallerFile)
    ensures
        nested_views(final(files)@) == with_file(nested_views(old(files)@), file@),
{
    let ghost all = nested_views(files@);
    let mut i: usize = 0;
    while i < files.len()
        invariant
            i <= files.len(),
            files@ == old(files)@,
            all == nested_views(files@),
            forall|k: int| 0 <= k < i ==> #[trigger] all[k] != file@,
        decreases files.len() - i,
    {
        assert(all[i as int] == files@[i as int]@);
        if same_file(&files[i], &file) {
            return;
        }
        i += 1;
    }
    assert(!all.contains(file@));
    files.push(file);
    assert(nested_views(files@) =~= all.push(file@));
}

fn has_path(paths: &Vec<String>, path: &str) -> (r: bool)
    ensures
        r == holds_path(texts(paths@), path@),
{
    let ghost all = texts(paths@);
    let mut i: usize = 0;
    while i < paths.len()
        invariant
            i <= paths.len(),
            all == texts(paths@),
            forall|k: int| 0 <= k < i ==> #[trigger] all[k] != path@,
        decreases paths.len() - i,
    {
        assert(all[i as int] == paths@[i as int]@);
        if str_eq(paths[i].as_str(), path) {
            return true;
        }
        i += 1;
    }
    false
}

fn fix_file(candidate: &NestedCandidate, paths: &Vec<String>) -> (r: Option<NestedInstallerFile>)
    ensures
        fixed_file(*candidate, texts(paths@)) == match r {
            Some(file) => Some(file@),
            None => None::<NestedView>,
        },
{
    if has_path(paths, candidate.normalized_path.as_str()) {
        return Some(candidate.file.copy());
    }
    match find_closest(paths, candidate.file.relative_file_path.as_str()) {
        Some(at) => Some(
            NestedInstallerFile {
                relative_file_path: lowercase_extension(paths[at].as_str()),
                portable_command_alias: copy_option(&candidate.file.portable_command_alias),
            },
        ),
        None => None,
    }
}

/// The paths of the files of an archive, where there is one.
pub open spec fn known_paths(paths: Option<Vec<String>>) -> Option<Seq<Seq<char>>> {
    match paths {
        Some(list) => Some(texts(list@)),
        None => None,
    }
}

/// Brings the paths of nested files in line with the files of the new archive, where there is one.
pub fn fix_relative_paths(
    candidates: &Vec<NestedCandidate>,
    paths: &Option<Vec<String>>,
) -> (r: Vec<NestedInstallerFile>)
    ensures
        nested_views(r@) == fixed_files(candidates@, known_paths(*paths)),
{
    let ghost known = known_paths(*paths);
    let mut out: Vec<NestedInstallerFile> = Vec::new();
    let mut i: usize = 0;
    assert(candidates@.take(0) =~= Seq::empty());
    assert(nested_views(out@) =~= Seq::empty());
    while i < candidates.len()
        invariant
            i <= candidates.len(),
            known == known_paths(*paths),
            nested_views(out@) == fixed_files(candidates@.take(i as int), known),
        decreases candidates.len() - i,
    {
        assert(candidates@.take(i + 1).drop_last() =~= candidates@.take(i as int));
        match paths {
            None => add_file(&mut out, candidates[i].file.copy()),
            Some(list) => {
                if let Some(file) = fix_file(&candidates[i], list) {
                    add_file(&mut out, file);
                }
            },
        }
        i += 1;
    }
    assert(candidates@.take(i as int) =~= candidates@);
    out
}

/// What a merged installer gets besides what the merge itself gives it.
#[derive(Debug)]
pub struct MergeDecision {
    pub installer_type: Option<InstallerType>,
    /// The nested files, where they are not those that the merge gives.
    pub nested_installer_files: Option<Vec<NestedInstallerFile>>,
    /// The architecture, where it is not the one that the merge gives.
    pub architecture: Option<Architecture>,
    pub url: String,
}

/// The first list that is not empty.
pub open spec fn first_listed(
    a: Seq<NestedCandidate>,
    b: Seq<NestedCandidate>,
    c: Seq<NestedCandidate>,
) -> Option<Seq<NestedCandidate>> {
    if a.len() > 0 {
        Some(a)
    } else if b.len() > 0 {
        Some(b)
    } else if c.len() > 0 {
        Some(c)
    } else {
        None
    }
}

/// The paths that nested files are brought in line with: none, where no file may be an installer.
pub open spec fn paths_to_fix(paths: Seq<Seq<char>>) -> Option<Seq<Seq<char>>> {
    if paths.len() == 0 {
        None
    } else {
        Some(paths)
    }
}

/// Whether a decision is the one for an installer of the version before and one of the new version.
/// The nested files are those of the installer before, or else of its manifest, or else those that
/// the merge gives, brought in line with the new archive. Installers that shared one URL keep their
/// architectures: the file cannot tell them apart.
pub open spec fn decides(
    decision: MergeDecision,
    previous: InstallerView,
    new: InstallerView,
    nested: Option<Seq<NestedCandidate>>,
    paths: Seq<Seq<char>>,
    all_previous: Seq<InstallerView>,
) -> bool {
    &&& decision.installer_type == merged_type(previous.installer_type, new.installer_type)
    &&& decision.url@ == new.url
    &&& decision.architecture == if is_shared_url(all_previous, previous.url) {
        Some(previous.architecture)
    } else {
        None
    }
    &&& match nested {
        None => decision.nested_installer_files is None,
        Some(files) => decision.nested_installer_files matches Some(fixed) && nested_views(fixed@)
            == fixed_files(files, paths_to_fix(paths)),
    }
}

/// Decides how an installer of the version before and one of the new version are merged.
pub fn decide_merge(
    previous: &Installer,
    new: &Installer,
    previous_nested: &Vec<NestedCandidate>,
    manifest_nested: &Vec<NestedCandidate>,
    merged_nested: &Vec<NestedCandidate>,
    possible_installer_files: Vec<String>,
    previous_installers: &Vec<Installer>,
) -> (r: MergeDecision)
    ensures
        decides(
            r,
            previous@,
            new@,
            first_listed(previous_nested@, manifest_nested@, merged_nested@),
            texts(possible_installer_files@),
            installer_views(previous_installers@),
        ),
{
    let ghost given = texts(possible_installer_files@);
    let paths: Option<Vec<String>> = if possible_installer_files.len() == 0 {
        None
    } else {
        Some(possible_installer_files)
    };
    assert(known_paths(paths) == paths_to_fix(given));
    let nested_installer_files = if previous_nested.len() > 0 {
        Some(fix_relative_paths(previous_nested, &paths))
    } else if manifest_nested.len() > 0 {
        Some(fix_relative_paths(manifest_nested, &paths))
    } else if merged_nested.len() > 0 {
        Some(fix_relative_paths(merged_nested, &paths))
    } else {
        None
    };
    MergeDecision {
        installer_type: merge_type(previous.installer_type, new.installer_type),
        nested_installer_files,
        architecture: if shares_url(previous_installers, previous.url.as_str()) {
            Some(previous.architecture)
        } else {
            None
        },
        url: new.url.clone(),
    }
}

/// What optional texts say.
pub open spec fn opt_texts(values: Seq<Option<String>>) -> Seq<Option<Seq<char>>> {
    values.map_values(|value: Option<String>| opt_text(value))
}

/// Whether all values that are there are the same.
pub open spec fn all_equal(values: Seq<Option<Seq<char>>>) -> bool {
    forall|i: int, j: int|
        0 <= i < values.len() && 0 <= j < values.len() && (#[trigger] values[i]) is Some && (
        #[trigger] values[j]) is Some ==> values[i] == values[j]
}

/// Takes the locales of installers away where all that have one have the same: it tells nothing of
/// the one that the other does not tell.
pub fn clear_equal_locales(locales: &mut Vec<Option<String>>)
    ensures
        final(locales)@.len() == old(locales)@.len(),
        all_equal(opt_texts(old(locales)@)) ==> forall|i: int|
            0 <= i < old(locales)@.len() ==> (#[trigger] final(locales)@[i]) is None,
        !all_equal(opt_texts(old(locales)@)) ==> final(locales)@ == old(locales)@,
{
    let ghost all = opt_texts(locales@);
    let total: usize = locales.len();
    let mut first: usize = total;
    let mut i: usize = 0;
    while i < total
        invariant
            i <= total == locales@.len(),
            locales@ == old(locales)@,
            all == opt_texts(locales@),
            first == total || first < i,
            first < total ==> all[first as int] is Some,
            first == total ==> forall|k: int| 0 <= k < i ==> (#[trigger] all[k]) is None,
            first < total ==> forall|k: int|
                0 <= k < i && (#[trigger] all[k]) is Some ==> all[k] == all[first as int],
        decreases total - i,
    {
        assert(all[i as int] == opt_text(locales@[i as int]));
        if let Some(locale) = &locales[i] {
            if first == total {
                first = i;
            } else if let Some(other) = &locales[first] {
                assert(all[first as int] == opt_text(locales@[first as int]));
                if !str_eq(locale.as_str(), other.as_str()) {
                    assert(all[i as int] is Some && all[first as int] is Some && all[i as int]
                        != all[first as int]);
                    return;
                }
            }
        }
        i += 1;
    }
    assert(all_equal(all)) by {
        assert forall|a: int, b: int|
            0 <= a < all.len() && 0 <= b < all.len() && (#[trigger] all[a]) is Some && (
            #[trigger] all[b]) is Some implies all[a] == all[b] by {
            if first < total {
                assert(all[a] == all[first as int]);
                assert(all[b] == all[first as int]);
            }
        }
    }
    let mut k: usize = 0;
    while k < total
        invariant
            k <= total == locales@.len() == old(locales)@.len(),
            forall|j: int| 0 <= j < k ==> (#[trigger] locales@[j]) is None,
        decreases total - k,
    {
        locales.set(k, None);
        k += 1;
    }
}

/// The least version of Windows that a manifest asks for, left out where every Windows 10 has it.
pub fn kept_minimum_os_version(version: Option<(u16, u16, u16, u16)>) -> (r: Option<
    (u16, u16, u16, u16),
>)
    ensures
        r == if version == Some((10u16, 0u16, 0u16, 0u16)) {
            None
        } else {
            version
        },
{
    match version {
        Some((major, minor, build, revision)) => if major == 10 && minor == 0 && build == 0
            && revision == 0 {
            None
        } else {
            version
        },
        None => None,
    }
}

/// Whether an installer installs a font.
pub open spec fn is_font(installer: InstallerView) -> bool {
    installer.installer_type == Some(InstallerType::Font) || installer.nested_installer_type
        == Some(InstallerType::Font)
}

/// Whether a list of installers holds a font.
pub open spec fn has_font(installers: Seq<InstallerView>) -> bool {
    exists|i: int| 0 <= i < installers.len() && is_font(#[trigger] installers[i])
}

/// Whether a list of installers holds one that is no font.
pub open spec fn has_application(installers: Seq<InstallerView>) -> bool {
    exists|i: int| 0 <= i < installers.len() && !is_font(#[trigger] installers[i])
}

/// Whether the installers of a manifest, with what it says of all of them, install fonts. They must
/// not install both fonts and applications.
pub fn check_package_type(installers: &Vec<Installer>) -> (r: Result<bool, String>)
    ensures
        ({
            let all = installer_views(installers@);
            if has_font(all) && has_application(all) {
                r matches Err(message) && message@
                    == "Application and font installers cannot be mixed in the same manifest"@
            } else {
                r == Ok::<bool, String>(has_font(all))
            }
        }),
{
    let ghost all = installer_views(installers@);
    let mut font = false;
    let mut application = false;
    let mut i: usize = 0;
    while i < installers.len()
        invariant
            i <= installers.len(),
            all == installer_views(installers@),
            font == exists|k: int| 0 <= k < i && is_font(#[trigger] all[k]),
            application == exists|k: int| 0 <= k < i && !is_font(#[trigger] all[k]),
            !(font && application),
        decreases installers.len() - i,
    {
        assert(all[i as int] == installers@[i as int]@);
        if matches!(installers[i].installer_type, Some(InstallerType::Font)) || matches!(
            installers[i].nested_installer_type,
            Some(InstallerType::Font)
        ) {
            font = true;
            assert(is_font(all[i as int]));
        } else {
            application = true;
            assert(!is_font(all[i as int]));
        }
        if font && application {
            return Err(
                "Application and font installers cannot be mixed in the same manifest".to_owned(),
            );
        }
        i += 1;
    }
    Ok(font)
}

proof fn lemma_closest_exists(paths: Seq<Seq<char>>, path: Seq<char>) -> (at: int)
    requires
        paths.len() > 0,
    ensures
        is_closest(paths, path, at),
    decreases paths.len(),
{
    if paths.len() == 1 {
        0
    } else {
        let before = paths.drop_last();
        let at = lemma_closest_exists(before, path);
        let last = paths.len() - 1;
        assert forall|k: int| 0 <= k < before.len() implies before[k] == #[trigger] paths[k] by {}
        if edit_distance(paths[last], path) < edit_distance(paths[at], path) {
            assert forall|k: int| 0 <= k < paths.len() implies edit_distance(paths[last], path)
                <= edit_distance(#[trigger] paths[k], path) by {
                if k < last {
                    assert(edit_distance(before[at], path) <= edit_distance(before[k], path));
                }
            }
            assert forall|k: int| 0 <= k < last implies edit_distance(paths[last], path)
                < edit_distance(#[trigger] paths[k], path) by {
                assert(edit_distance(before[at], path) <= edit_distance(before[k], path));
            }
            last
        } else {
            assert forall|k: int| 0 <= k < paths.len() implies edit_distance(paths[at], path)
                <= edit_distance(#[trigger] paths[k], path) by {
                if k < last {
                    assert(edit_distance(before[at], path) <= edit_distance(before[k], path));
                }
            }
            assert forall|k: int| 0 <= k < at implies edit_distance(paths[at], path)
                < edit_distance(#[trigger] paths[k], path) by {
                assert(edit_distance(before[at], path) < edit_distance(before[k], path));
            }
            at
        }
    }
}

/// The closest path is one of the paths, and none is closer.
pub proof fn law_closest_path(paths: Seq<Seq<char>>, path: Seq<char>, other: Seq<char>)
    requires
        holds_path(paths, other),
    ensures
        closest_path(paths, path) matches Some(closest) && holds_path(paths, closest)
            && edit_distance(closest, path) <= edit_distance(other, path),
{
    let found = lemma_closest_exists(paths, path);
    let at = choose|at: int| is_closest(paths, path, at);
    assert(is_closest(paths, path, at));
    let i = choose|i: int| 0 <= i < paths.len() && #[trigger] paths[i] == other;
    assert(edit_distance(paths[at], path) <= edit_distance(paths[i], path));
}

/// No file occurs twice among the corrected nested files; they are what becomes of the candidates,
/// all of it and nothing else.
pub proof fn law_fixed_files(candidates: Seq<NestedCandidate>, paths: Option<Seq<Seq<char>>>)
    ensures
        fixed_files(candidates, paths).no_duplicates(),
        forall|i: int|
            0 <= i < candidates.len() ==> (kept_file(#[trigger] candidates[i], paths) matches Some(
                file,
            ) ==> fixed_files(candidates, paths).contains(file)),
        forall|k: int|
            0 <= k < fixed_files(candidates, paths).len() ==> exists|i: int|
                0 <= i < candidates.len() && kept_file(#[trigger] candidates[i], paths) == Some(
                    #[trigger] fixed_files(candidates, paths)[k],
                ),
    decreases candidates.len(),
{
    if candidates.len() > 0 {
        let rest = candidates.drop_last();
        law_fixed_files(rest, paths);
        let before = fixed_files(rest, paths);
        let all = fixed_files(candidates, paths);
        let kept = kept_file(candidates.last(), paths);
        if let Some(file) = kept {
            if !before.contains(file) {
                assert(all == before.push(file));
                assert(all[before.len() as int] == file);
            }
            assert(all.contains(file));
        }
        assert forall|k: int| 0 <= k < before.len() implies all[k] == before[k] by {}
        assert forall|i: int| 0 <= i < candidates.len() implies (kept_file(
            #[trigger] candidates[i],
            paths,
        ) matches Some(file) ==> all.contains(file)) by {
            if i < rest.len() {
                assert(rest[i] == candidates[i]);
                if let Some(file) = kept_file(candidates[i], paths) {
                    let k = choose|k: int| 0 <= k < before.len() && before[k] == file;
                    assert(all[k] == file);
                }
            }
        }
        assert forall|k: int| 0 <= k < all.len() implies exists|i: int|
            0 <= i < candidates.len() && kept_file(#[trigger] candidates[i], paths) == Some(
                #[trigger] all[k],
            ) by {
            if k < before.len() {
                let i = choose|i: int|
                    0 <= i < rest.len() && kept_file(#[trigger] rest[i], paths) == Some(before[k]);
                assert(candidates[i] == rest[i]);
            } else {
                assert(kept_file(candidates[candidates.len() - 1], paths) == Some(all[k]));
            }
        }
    }
}

/// No nested file is dropped where there is no archive or the archive holds a file, and each keeps its
/// command alias.
pub proof fn law_kept_file(candidate: NestedCandidate, paths: Option<Seq<Seq<char>>>)
    requires
        paths matches Some(list) ==> list.len() > 0,
    ensures
        kept_file(candidate, paths) matches Some(file) && file.portable_command_alias
            == candidate.file@.portable_command_alias,
{
}

/// A merged installer is portable exactly where the one before was.
pub proof fn law_merged_type(previous: Option<InstallerType>, new: Option<InstallerType>)
    ensures
        merged_type(previous, new) == Some(InstallerType::Portable) <==> previous == Some(
            InstallerType::Portable,
        ),
{
}

} // verus!
