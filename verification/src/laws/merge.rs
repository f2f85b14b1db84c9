//! Merging: what the installers of a version keep of those of the version before.
use vstd::prelude::*;

use crate::analyzer::{extension, extension_before, stripped};
use crate::manifest::{nested_views, InstallerType, InstallerView, NestedView};
use crate::merge::{
    all_equal, closest_path, decides, edit_distance, first_listed, fixed_files, has_application, has_font,
    inherited, is_closest, is_font, kept_file, known_paths, merged_type, opt_texts, paths_to_fix, with_lower_extension,
    ManifestFacts, MergeDecision, NestedCandidate,
};
use crate::search::lower_text;
use crate::text::opt_text;

verus! {

/// An installer takes from its manifest the type, the nested type and the scope that the manifest gives for
/// all, each for itself, and keeps everything else.
pub proof fn law_inherited(installer: InstallerView, manifest: ManifestFacts)
    ensures
        ({
            let all = inherited(installer, manifest);
            &&& manifest.installer_type is Some ==> all.installer_type == manifest.installer_type
            &&& manifest.installer_type is None ==> all.installer_type == installer.installer_type
            &&& manifest.nested_installer_type is Some ==> all.nested_installer_type
                == manifest.nested_installer_type
            &&& manifest.nested_installer_type is None ==> all.nested_installer_type
                == installer.nested_installer_type
            &&& manifest.scope is Some ==> all.scope == manifest.scope
            &&& manifest.scope is None ==> all.scope == installer.scope
            &&& all.locale == installer.locale
            &&& all.architecture == installer.architecture
            &&& all.nested_installer_files == installer.nested_installer_files
            &&& all.url == installer.url
            &&& all.sha_256 == installer.sha_256
            &&& all.release_date == installer.release_date
            &&& all.product_code == installer.product_code
            &&& all.apps_and_features_entries == installer.apps_and_features_entries
            &&& all.install_location == installer.install_location
            &&& all.all_install_modes == installer.all_install_modes
            &&& all.switches == installer.switches
            &&& all.expected_return_codes == installer.expected_return_codes
        }),
{
}

/// The type of a merged installer is the new one, unless either is portable: what was portable stays so, and
/// what is found to be portable has the type that it had before.
pub proof fn law_type_after_merge(previous: Option<InstallerType>, new: Option<InstallerType>)
    ensures
        previous == Some(InstallerType::Portable) ==> merged_type(previous, new) == previous,
        new == Some(InstallerType::Portable) ==> merged_type(previous, new) == previous,
        previous != Some(InstallerType::Portable) && new != Some(InstallerType::Portable) ==> merged_type(
            previous,
            new,
        ) == new,
{
}

/// A merged installer has the URL of the new one, the type that both give, and the architecture of the one
/// before exactly where that shared its URL with another. Its nested files are left as they are where none
/// are given.
pub proof fn law_decision(
    decision: MergeDecision,
    previous: InstallerView,
    new: InstallerView,
    nested: Option<Seq<NestedCandidate>>,
    paths: Seq<Seq<char>>,
    all_previous: Seq<InstallerView>,
)
    requires
        decides(decision, previous, new, nested, paths, all_previous),
    ensures
        decision.url@ == new.url,
        decision.installer_type == merged_type(previous.installer_type, new.installer_type),
        decision.architecture is Some <==> exists|i: int, j: int|
            0 <= i < j < all_previous.len() && (#[trigger] all_previous[i]).url == previous.url && (
            #[trigger] all_previous[j]).url == previous.url,
        decision.architecture matches Some(architecture) ==> architecture == previous.architecture,
        decision.nested_installer_files is Some <==> nested is Some,
        match (decision.nested_installer_files, nested) {
            (Some(fixed), Some(files)) => {
                &&& paths.len() == 0 ==> nested_views(fixed@) == fixed_files(files, None)
                &&& paths.len() > 0 ==> nested_views(fixed@) == fixed_files(files, Some(paths))
            },
            _ => true,
        },
{
}

/// The nested files are those of the installer, or else those of the manifest, or else those of the merge;
/// a list without files does not count.
pub proof fn law_first_listed(
    a: Seq<NestedCandidate>,
    b: Seq<NestedCandidate>,
    c: Seq<NestedCandidate>,
)
    ensures
        a.len() > 0 ==> first_listed(a, b, c) == Some(a),
        a.len() == 0 && b.len() > 0 ==> first_listed(a, b, c) == Some(b),
        a.len() == 0 && b.len() == 0 && c.len() > 0 ==> first_listed(a, b, c) == Some(c),
        a.len() == 0 && b.len() == 0 && c.len() == 0 ==> first_listed(a, b, c) is None,
{
}

/// A nested file that the new archive holds stays as it is, and so does any where there is no archive. Another
/// is found under the first of the closest paths of the archive, with its extension in lower case, and keeps
/// its alias. An archive without files has none.
pub proof fn law_file_after_merge(candidate: NestedCandidate, paths: Seq<Seq<char>>)
    ensures
        kept_file(candidate, None) == Some(candidate.file@),
        paths.contains(candidate.normalized_path@) ==> kept_file(candidate, Some(paths)) == Some(
            candidate.file@,
        ),
        !paths.contains(candidate.normalized_path@) && paths.len() == 0 ==> kept_file(
            candidate,
            Some(paths),
        ) is None,
        !paths.contains(candidate.normalized_path@) && paths.len() > 0 ==> ({
            let path = candidate.file.relative_file_path@;
            &&& kept_file(candidate, Some(paths)) matches Some(file)
            &&& file.portable_command_alias == opt_text(candidate.file.portable_command_alias)
            &&& exists|at: int|
                0 <= at < paths.len() && file.relative_file_path == with_lower_extension(
                    #[trigger] paths[at],
                ) && (forall|k: int|
                    0 <= k < paths.len() ==> edit_distance(paths[at], path) <= edit_distance(
                        #[trigger] paths[k],
                        path,
                    )) && (forall|k: int|
                    0 <= k < at ==> edit_distance(paths[at], path) < edit_distance(
                        #[trigger] paths[k],
                        path,
                    ))
        }),
{
    let path = candidate.file.relative_file_path@;
    if paths.contains(candidate.normalized_path@) {
        let i = choose|i: int| 0 <= i < paths.len() && paths[i] == candidate.normalized_path@;
        assert(paths[i] == candidate.normalized_path@);
    } else if paths.len() > 0 {
        lemma_has_closest(paths, path, paths.len() as int);
        let at = choose|at: int| is_closest(paths, path, at);
        assert(is_closest(paths, path, at));
        assert(closest_path(paths, path) == Some(paths[at]));
    }
}

proof fn lemma_has_closest(paths: Seq<Seq<char>>, path: Seq<char>, n: int) -> (at: int)
    requires
        0 < n <= paths.len(),
    ensures
        0 <= at < n,
        forall|k: int|
            0 <= k < n ==> edit_distance(paths[at], path) <= edit_distance(#[trigger] paths[k], path),
        forall|k: int|
            0 <= k < at ==> edit_distance(paths[at], path) < edit_distance(#[trigger] paths[k], path),
        n == paths.len() ==> is_closest(paths, path, at),
    decreases n,
{
    if n == 1 {
        0
    } else {
        let at = lemma_has_closest(paths, path, n - 1);
        if edit_distance(paths[n - 1], path) < edit_distance(paths[at], path) {
            n - 1
        } else {
            at
        }
    }
}

/// The nested files come in the order of the candidates: one candidate more leaves what was there, and adds
/// what becomes of it, where that is not there yet.
pub proof fn law_files_in_order(
    candidates: Seq<NestedCandidate>,
    candidate: NestedCandidate,
    paths: Option<Seq<Seq<char>>>,
)
    ensures
        fixed_files(Seq::empty(), paths) == Seq::<NestedView>::empty(),
        ({
            let before = fixed_files(candidates, paths);
            let after = fixed_files(candidates.push(candidate), paths);
            match kept_file(candidate, paths) {
                Some(file) => if before.contains(file) {
                    after == before
                } else {
                    after == before + seq![file]
                },
                None => after == before,
            }
        }),
{
    assert(candidates.push(candidate).drop_last() =~= candidates);
    if let Some(file) = kept_file(candidate, paths) {
        let before = fixed_files(candidates, paths);
        assert(before.push(file) =~= before + seq![file]);
    }
}

/// The paths of an archive are the texts of its list, in order, and there are none without an archive.
pub proof fn law_known_paths(list: Vec<String>)
    ensures
        known_paths(None) is None,
        known_paths(Some(list)) matches Some(paths) && paths.len() == list@.len() && forall|i: int|
            0 <= i < list@.len() ==> #[trigger] paths[i] == list@[i]@,
{
}

/// Nested files are brought in line with an archive only where it holds a file that may be an installer.
pub proof fn law_paths_to_fix(paths: Seq<Seq<char>>)
    ensures
        paths.len() == 0 <==> paths_to_fix(paths) is None,
        paths.len() > 0 ==> paths_to_fix(paths) == Some(paths),
{
}

/// The distance of two texts counts the characters that are added, taken away or changed: it is none exactly
/// where they are the same; a character that both end with does not count; one character more or another
/// makes a difference of one at most, and one that differs has to be dealt with in one of three ways.
pub proof fn law_edit_distance(a: Seq<char>, b: Seq<char>, x: char, y: char)
    ensures
        edit_distance(a, Seq::empty()) == a.len(),
        edit_distance(Seq::empty(), b) == b.len(),
        x != y ==> ({
            let both = edit_distance(a.push(x), b.push(y));
            let taken = edit_distance(a, b.push(y));
            let added = edit_distance(a.push(x), b);
            let changed = edit_distance(a, b);
            &&& both <= taken + 1
            &&& both <= added + 1
            &&& both <= changed + 1
            &&& both == taken + 1 || both == added + 1 || both == changed + 1
        }),
{
    assert(a.push(x).drop_last() =~= a);
    assert(b.push(y).drop_last() =~= b);
}

/// The distance of two texts is none exactly where they are the same, is the same in both directions, and is
/// no more than the longer of them has characters, and no less than they differ in length.
pub proof fn law_distance_bounds(a: Seq<char>, b: Seq<char>)
    ensures
        edit_distance(a, b) == 0 <==> a == b,
        edit_distance(a, b) == edit_distance(b, a),
        a.len() <= b.len() ==> b.len() - a.len() <= edit_distance(a, b) <= b.len(),
        b.len() <= a.len() ==> a.len() - b.len() <= edit_distance(a, b) <= a.len(),
    decreases a.len() + b.len(),
{
    if a.len() == 0 {
        assert(b.len() == 0 ==> a =~= b);
    } else if b.len() > 0 {
        let (c, d) = (a.drop_last(), b.drop_last());
        law_distance_bounds(c, b);
        law_distance_bounds(a, d);
        law_distance_bounds(c, d);
        assert(a =~= c.push(a.last()));
        assert(b =~= d.push(b.last()));
        if a == b {
            assert(c == d);
        }
    }
}

proof fn lemma_extension_at(path: Seq<char>, end: int, dot: int)
    requires
        0 < dot < end <= path.len(),
        path[dot] == '.',
        path[dot - 1] != '/',
        forall|i: int| dot < i < end ==> #[trigger] path[i] != '.' && path[i] != '/',
    ensures
        extension_before(path, end) == Some(path.skip(dot + 1)),
    decreases end,
{
    if end - 1 > dot {
        assert(path[end - 1] != '.');
        lemma_extension_at(path, end - 1, dot);
    }
}

/// The extension of a path is what follows the last dot of its last part, where something stands before that
/// dot; in lower case, only the extension changes.
pub proof fn law_extension(stem: Seq<char>, name: Seq<char>)
    requires
        stem.len() > 0,
        stem[stem.len() - 1] != '/',
        name.len() > 0,
        forall|i: int| 0 <= i < name.len() ==> #[trigger] name[i] != '.' && name[i] != '/',
    ensures
        extension(stem + seq!['.'] + name) == Some(name),
        with_lower_extension(stem + seq!['.'] + name) == stem + seq!['.'] + lower_text(name),
{
    let path = stem + seq!['.'] + name;
    let dot = stem.len() as int;
    assert(path.last() == name[name.len() - 1]);
    assert(stripped(path) == path);
    assert(path[dot] == '.');
    assert(path[dot - 1] == stem[dot - 1]);
    assert forall|i: int| dot < i < path.len() implies #[trigger] path[i] != '.' && path[i] != '/' by {
        assert(path[i] == name[i - dot - 1]);
    }
    lemma_extension_at(path, path.len() as int, dot);
    assert(path.skip(dot + 1) =~= name);
    assert(with_lower_extension(path) =~= stem + seq!['.'] + lower_text(name));
}

proof fn lemma_no_extension_at(path: Seq<char>, end: int, start: int)
    requires
        0 <= start <= end <= path.len(),
        start == 0 || path[start - 1] == '/',
        forall|i: int| start < i < end ==> #[trigger] path[i] != '.' && path[i] != '/',
        start < end ==> path[start] != '/',
    ensures
        extension_before(path, end) is None,
    decreases end,
{
    if end > start {
        if end - 1 > start {
            assert(path[end - 1] != '.' && path[end - 1] != '/');
            lemma_no_extension_at(path, end - 1, start);
        } else if path[start] != '.' {
            lemma_no_extension_at(path, start, start);
        }
    }
}

/// A last part without a dot, or with one at its start only, has no extension, whatever stands before it; and a
/// path without extension stays as it is.
pub proof fn law_no_extension(directory: Seq<char>, name: Seq<char>)
    requires
        directory.len() == 0 || directory[directory.len() - 1] == '/',
        name.len() > 1,
        name[0] != '/',
        forall|i: int| 0 < i < name.len() ==> #[trigger] name[i] != '.' && name[i] != '/',
    ensures
        extension(directory + name) is None,
        with_lower_extension(directory + name) == directory + name,
{
    let path = directory + name;
    let start = directory.len() as int;
    assert(path.last() == name[name.len() - 1]);
    assert(stripped(path) == path);
    assert forall|i: int| start < i < path.len() implies #[trigger] path[i] != '.' && path[i] != '/' by {
        assert(path[i] == name[i - start]);
    }
    assert(path[start] == name[0]);
    lemma_no_extension_at(path, path.len() as int, start);
}

/// Slashes at the end of a path, and parts there that lead nowhere, change nothing of its extension; a path that
/// leads up has none.
pub proof fn law_extension_before_slash(path: Seq<char>)
    ensures
        extension(path + seq!['/']) == extension(path),
        extension(path + seq!['/', '.']) == extension(path),
        extension(path + seq!['/', '.', '.']) is None,
{
    reveal_with_fuel(stripped, 3);
    assert((path + seq!['/']).drop_last() =~= path);
    let here = path + seq!['/', '.'];
    assert(here.drop_last() =~= path + seq!['/']);
    assert(here[here.len() - 1] == '.' && here[here.len() - 2] == '/');
    let up = path + seq!['/', '.', '.'];
    assert(up[up.len() - 1] == '.' && up[up.len() - 2] == '.' && up[up.len() - 3] == '/');
}

/// A dot that ends the last part is followed by an extension without characters.
pub proof fn law_empty_extension(stem: Seq<char>)
    requires
        stem.len() > 0,
        stem[stem.len() - 1] != '/',
        stem[stem.len() - 1] != '.',
    ensures
        extension(stem + seq!['.']) == Some(Seq::<char>::empty()),
        with_lower_extension(stem + seq!['.']) == stem + seq!['.'],
{
    let path = stem + seq!['.'];
    let dot = stem.len() as int;
    assert(path[dot] == '.' && path[dot - 1] == stem[dot - 1]);
    assert(stripped(path) == path);
    lemma_extension_at(path, path.len() as int, dot);
    assert(path.skip(dot + 1) =~= Seq::<char>::empty());
    assert(with_lower_extension(path) =~= path);
}

/// Values that are there are all the same exactly where there is one that all of them are.
pub proof fn law_all_equal(values: Seq<Option<String>>)
    ensures
        all_equal(opt_texts(values)) <==> exists|text: Seq<char>| #[trigger] all_are(values, text),
{
    let all = opt_texts(values);
    if all_equal(all) {
        if exists|i: int| 0 <= i < values.len() && (#[trigger] values[i]) is Some {
            let i = choose|i: int| 0 <= i < values.len() && (#[trigger] values[i]) is Some;
            let text = values[i].unwrap()@;
            assert forall|k: int| 0 <= k < values.len() implies ((#[trigger] values[k]) is Some
                ==> values[k].unwrap()@ == text) by {
                assert(all[i] == opt_text(values[i]) && all[k] == opt_text(values[k]));
            }
            assert(all_are(values, text));
        } else {
            assert(all_are(values, Seq::empty()));
        }
    }
    if exists|text: Seq<char>| #[trigger] all_are(values, text) {
        let text = choose|text: Seq<char>| #[trigger] all_are(values, text);
        assert forall|i: int, j: int|
            0 <= i < all.len() && 0 <= j < all.len() && (#[trigger] all[i]) is Some && (
            #[trigger] all[j]) is Some implies all[i] == all[j] by {
            assert(values[i] is Some && values[j] is Some);
        }
    }
}

/// Whether all values that are there are a text.
pub open spec fn all_are(values: Seq<Option<String>>, text: Seq<char>) -> bool {
    forall|i: int|
        0 <= i < values.len() ==> ((#[trigger] values[i]) is Some ==> values[i].unwrap()@ == text)
}

/// An installer is a font where its type or its nested type says so. A list that holds no font holds nothing
/// but applications, and one that holds no application nothing but fonts.
pub proof fn law_fonts(installer: InstallerView, installers: Seq<InstallerView>)
    ensures
        is_font(installer) <==> installer.installer_type == Some(InstallerType::Font)
            || installer.nested_installer_type == Some(InstallerType::Font),
        !has_font(installers) <==> forall|i: int|
            0 <= i < installers.len() ==> !is_font(#[trigger] installers[i]),
        !has_application(installers) <==> forall|i: int|
            0 <= i < installers.len() ==> is_font(#[trigger] installers[i]),
{
}

} // verus!
