//! Files: what their names, their first bytes and their contents tell.
use vstd::prelude::*;

use crate::analyzer::{
    corrected, delimited_at, extension, file_name_architectures, is_delimiter, named_at,
    named_extension, of_length, stripped, valid_extension, Analyzer,
};
use crate::download::{
    downloaded_architecture, hex_text, inferred_name, is_local_name, is_portable, last_part, names_bundle,
};
use crate::manifest::{Architecture, InstallerView};
use crate::source::UrlView;

verus! {

/// A file can be analyzed exactly where it has an extension that is known.
pub proof fn law_valid_extension(path: Seq<char>)
    ensures
        match (extension(path), valid_extension(path)) {
            (Some(name), found) => found == named_extension(name),
            (None, found) => found is None,
        },
{
}

/// A name of an architecture in a file name stands between delimiters, or at an end of the file name.
pub proof fn law_delimited(s: Seq<char>, at: int, name: Seq<char>)
    requires
        0 <= at <= s.len(),
    ensures
        delimited_at(s, at, name) <==> {
            &&& at + name.len() <= s.len()
            &&& forall|i: int| 0 <= i < name.len() ==> #[trigger] s[at + i] == name[i]
            &&& at == 0 || is_delimiter(s[at - 1])
            &&& at + name.len() == s.len() || is_delimiter(s[at + name.len()])
        },
{
    let rest = s.skip(at);
    if name.is_prefix_of(rest) {
        assert forall|i: int| 0 <= i < name.len() implies #[trigger] s[at + i] == name[i] by {
            assert(rest.subrange(0, name.len() as int)[i] == rest[i]);
        }
    }
    if at + name.len() <= s.len() && forall|i: int|
        0 <= i < name.len() ==> #[trigger] s[at + i] == name[i] {
        assert forall|i: int| 0 <= i < name.len() implies rest.subrange(0, name.len() as int)[i]
            == name[i] by {
            assert(s[at + i] == name[i]);
        }
        assert(name =~= rest.subrange(0, name.len() as int));
    }
}

/// A delimiter is a comma, a dot, an underscore, a hyphen, a round bracket, a plus sign or a blank.
pub proof fn law_delimiters(c: char)
    ensures
        is_delimiter(c) <==> seq![',', '.', '_', '-', '(', ')', '+', ' '].contains(c),
{
    let all = seq![',', '.', '_', '-', '(', ')', '+', ' '];
    assert(all[0] == ',' && all[1] == '.' && all[2] == '_' && all[3] == '-');
    assert(all[4] == '(' && all[5] == ')' && all[6] == '+' && all[7] == ' ');
}

/// Of the names of architectures, the first in the list that stands at a place counts there, and nothing where
/// none stands.
pub proof fn law_named_at(s: Seq<char>, at: int, names: Seq<(Seq<char>, Architecture)>)
    ensures
        match named_at(s, at, names) {
            Some(architecture) => exists|k: int|
                0 <= k < names.len() && (#[trigger] names[k]).1 == architecture && delimited_at(
                    s,
                    at,
                    names[k].0,
                ) && forall|j: int| 0 <= j < k ==> !delimited_at(s, at, (#[trigger] names[j]).0),
            None => forall|k: int|
                0 <= k < names.len() ==> !delimited_at(s, at, (#[trigger] names[k]).0),
        },
    decreases names.len(),
{
    if names.len() > 0 {
        if delimited_at(s, at, names[0].0) {
            assert(names[0].1 == named_at(s, at, names).unwrap());
        } else {
            let rest = names.drop_first();
            law_named_at(s, at, rest);
            match named_at(s, at, rest) {
                Some(architecture) => {
                    let k = choose|k: int|
                        0 <= k < rest.len() && (#[trigger] rest[k]).1 == architecture && delimited_at(
                            s,
                            at,
                            rest[k].0,
                        ) && forall|j: int|
                            0 <= j < k ==> !delimited_at(s, at, (#[trigger] rest[j]).0);
                    assert(names[k + 1] == rest[k]);
                    assert forall|j: int| 0 <= j < k + 1 implies !delimited_at(
                        s,
                        at,
                        (#[trigger] names[j]).0,
                    ) by {
                        if j > 0 {
                            assert(names[j] == rest[j - 1]);
                        }
                    }
                },
                None => {
                    assert forall|j: int| 0 <= j < names.len() implies !delimited_at(
                        s,
                        at,
                        (#[trigger] names[j]).0,
                    ) by {
                        if j > 0 {
                            assert(names[j] == rest[j - 1]);
                        }
                    }
                },
            }
        }
    }
}

/// The names of 64-bit architectures in file names, each with its architecture; nothing else is a name, and no
/// name stands before one that starts with it.
pub proof fn law_names_in_files(name: Seq<char>, architecture: Architecture)
    ensures
        file_name_architectures().contains((name, architecture)) <==> ({
            ||| architecture == Architecture::Arm64 && (name == "winarm64"@ || name == "aarch64"@ || name
                == "arm64ec"@ || name == "win64a"@ || name == "arm64"@)
            ||| architecture == Architecture::X64 && (name == "x86_64"@ || name == "x86-64"@ || name
                == "64-bit"@ || name == "winx64"@ || name == "64bit"@ || name == "amd64"@ || name
                == "win64"@ || name == "ia64"@ || name == "x64"@)
        }),
        forall|i: int, j: int|
            0 <= i < j < file_name_architectures().len() ==> (#[trigger] file_name_architectures()[j]).0.len()
                <= (#[trigger] file_name_architectures()[i]).0.len(),
{
    let all = file_name_architectures();
    assert(all[0] == ("winarm64"@, Architecture::Arm64));
    assert(all[1] == ("aarch64"@, Architecture::Arm64));
    assert(all[2] == ("arm64ec"@, Architecture::Arm64));
    assert(all[3] == ("x86_64"@, Architecture::X64));
    assert(all[4] == ("x86-64"@, Architecture::X64));
    assert(all[5] == ("win64a"@, Architecture::Arm64));
    assert(all[6] == ("64-bit"@, Architecture::X64));
    assert(all[7] == ("winx64"@, Architecture::X64));
    assert(all[8] == ("64bit"@, Architecture::X64));
    assert(all[9] == ("amd64"@, Architecture::X64));
    assert(all[10] == ("arm64"@, Architecture::Arm64));
    assert(all[11] == ("win64"@, Architecture::X64));
    assert(all[12] == ("ia64"@, Architecture::X64));
    assert(all[13] == ("x64"@, Architecture::X64));
    reveal_strlit("winarm64");
    reveal_strlit("aarch64");
    reveal_strlit("arm64ec");
    reveal_strlit("x86_64");
    reveal_strlit("x86-64");
    reveal_strlit("win64a");
    reveal_strlit("64-bit");
    reveal_strlit("winx64");
    reveal_strlit("64bit");
    reveal_strlit("amd64");
    reveal_strlit("arm64");
    reveal_strlit("win64");
    reveal_strlit("ia64");
    reveal_strlit("x64");
}

/// A 32-bit installer gets the architecture that the file name tells of, and keeps everything else; any other
/// installer, and any where the file name tells nothing, stays as it is.
pub proof fn law_corrected_fields(installer: InstallerView, named: Option<Architecture>)
    ensures
        ({
            let fixed = corrected(installer, named);
            &&& fixed.architecture == match (installer.architecture, named) {
                (Architecture::X86, Some(architecture)) => architecture,
                (architecture, _) => architecture,
            }
            &&& fixed.locale == installer.locale
            &&& fixed.installer_type == installer.installer_type
            &&& fixed.nested_installer_type == installer.nested_installer_type
            &&& fixed.nested_installer_files == installer.nested_installer_files
            &&& fixed.scope == installer.scope
            &&& fixed.url == installer.url
            &&& fixed.sha_256 == installer.sha_256
            &&& fixed.release_date == installer.release_date
            &&& fixed.product_code == installer.product_code
            &&& fixed.apps_and_features_entries == installer.apps_and_features_entries
            &&& fixed.install_location == installer.install_location
            &&& fixed.all_install_modes == installer.all_install_modes
            &&& fixed.switches == installer.switches
            &&& fixed.expected_return_codes == installer.expected_return_codes
        }),
{
}

/// A text that is too short or too long for a manifest is left out, and any other is kept as it is; the bounds
/// themselves are neither.
pub proof fn law_of_length(text: String, min: nat, max: nat)
    ensures
        of_length(None, min, max) is None,
        text@.len() < min ==> of_length(Some(text), min, max) is None,
        text@.len() > max ==> of_length(Some(text), min, max) is None,
        min <= text@.len() && text@.len() <= max ==> of_length(Some(text), min, max) == Some(text@),
{
}

/// What tells of its installers only has no name, no copyright, no package, no publisher and no versions.
pub proof fn law_bare<P, F, Z>(analyzer: Analyzer<P, F, Z>)
    requires
        analyzer.is_bare(),
    ensures
        analyzer.file_name@ == Seq::<char>::empty(),
        analyzer.copyright is None,
        analyzer.package_name is None,
        analyzer.publisher is None,
        analyzer.file_version is None,
        analyzer.product_version is None,
        analyzer.pe_info is None,
{
    assert(analyzer.file_name@ =~= Seq::<char>::empty());
}

/// Each byte is two hexadecimal digits, the higher first, in upper case and in the order of the bytes.
pub proof fn law_hex_digits(data: Seq<u8>, i: int)
    requires
        0 <= i < data.len(),
    ensures
        hex_text(data).len() == 2 * data.len(),
        hex_text(data)[2 * i] == "0123456789ABCDEF"@[data[i] as int / 16],
        hex_text(data)[2 * i + 1] == "0123456789ABCDEF"@[data[i] as int % 16],
    decreases data.len(),
{
    reveal_strlit("0123456789ABCDEF");
    let before = data.drop_last();
    crate::download::law_hex_text(before);
    if i < data.len() - 1 {
        law_hex_digits(before, i);
        assert(before[i] == data[i]);
    }
}

/// The architecture that was given with a URL counts, whatever the file is called; else a bundle has none, and
/// any other file has the one that the URL names.
pub proof fn law_downloaded_architecture(
    url: UrlView,
    file_name: Seq<char>,
    named: Option<Architecture>,
)
    ensures
        url.architecture is Some ==> downloaded_architecture(url, file_name, named) == url.architecture,
        url.architecture is None && names_bundle(file_name) ==> downloaded_architecture(
            url,
            file_name,
            named,
        ) is None,
        url.architecture is None && !names_bundle(file_name) ==> downloaded_architecture(
            url,
            file_name,
            named,
        ) == named,
        names_bundle(file_name) <==> (valid_extension(file_name) matches Some(extension) && (
        extension is MsixBundle || extension is AppxBundle)),
{
}

/// A path of slashes alone has no last part, and neither has one that ends in a step up.
pub proof fn law_no_last_part(directory: Seq<char>)
    ensures
        last_part(Seq::empty()) is None,
        last_part(seq!['/']) is None,
        last_part(seq!['.']) is None,
        last_part(seq!['.', '.']) is None,
        last_part(directory + seq!['/', '.', '.']) is None,
        last_part(directory + seq!['/']) == last_part(directory),
        last_part(directory + seq!['/', '.']) == last_part(directory),
{
    reveal_with_fuel(stripped, 3);
    reveal_strlit(".");
    assert("."@ =~= seq!['.']);
    assert(seq!['/'].drop_last() =~= Seq::<char>::empty());
    assert((directory + seq!['/']).drop_last() =~= directory);
    let here = directory + seq!['/', '.'];
    assert(here.drop_last() =~= directory + seq!['/']);
    assert(here[here.len() - 1] == '.' && here[here.len() - 2] == '/');
    let up = directory + seq!['/', '.', '.'];
    let n = up.len() as int;
    assert(up[n - 1] == '.' && up[n - 2] == '.' && up[n - 3] == '/');
}

/// A file on disk is called by the last part of its path wherever every system takes the path apart alike,
/// and by the path where that has none.
pub proof fn law_local_name(path: Seq<char>, name: Seq<char>)
    requires
        is_local_name(path, name),
        forall|i: int| 0 <= i < path.len() ==> #[trigger] path[i] != '\\' && path[i] != ':',
        path.len() > 1 ==> !(path[0] == '/' && path[1] == '/'),
    ensures
        last_part(path) matches Some(part) ==> name == part,
        last_part(path) is None ==> name == path,
{
    assert(is_portable(path));
}

/// Whether bytes start with others.
pub open spec fn begins(magic: Seq<u8>, bytes: Seq<u8>) -> bool {
    magic.len() >= bytes.len() && forall|i: int| 0 <= i < bytes.len() ==> #[trigger] magic[i] == bytes[i]
}

/// A name with an extension that is known stays. Any other gets the extension of an MSI or of an executable
/// where the file starts like one, and stays where it does not.
pub proof fn law_inferred_extension(file_name: Seq<char>, magic: Seq<u8>)
    ensures
        ({
            let ole = begins(
                magic,
                seq![0xD0u8, 0xCFu8, 0x11u8, 0xE0u8, 0xA1u8, 0xB1u8, 0x1Au8, 0xE1u8],
            );
            let pe = begins(magic, seq!['M' as u8, 'Z' as u8]);
            let known = valid_extension(file_name) is Some;
            let name = inferred_name(file_name, magic);
            &&& known ==> name == file_name
            &&& !known && ole ==> name == file_name + seq!['.', 'm', 's', 'i']
            &&& !known && !ole && pe ==> name == file_name + seq!['.', 'e', 'x', 'e']
            &&& !known && !ole && !pe ==> name == file_name
        }),
{
    reveal_strlit(".msi");
    reveal_strlit(".exe");
    assert(".msi"@ =~= seq!['.', 'm', 's', 'i']);
    assert(".exe"@ =~= seq!['.', 'e', 'x', 'e']);
    lemma_begins(magic, crate::download::ole_magic());
    lemma_begins(magic, crate::download::pe_magic());
    assert(crate::download::pe_magic() =~= seq!['M' as u8, 'Z' as u8]);
}

proof fn lemma_begins(magic: Seq<u8>, bytes: Seq<u8>)
    ensures
        begins(magic, bytes) <==> bytes.is_prefix_of(magic),
{
    if bytes.is_prefix_of(magic) {
        assert forall|i: int| 0 <= i < bytes.len() implies #[trigger] magic[i] == bytes[i] by {
            assert(magic.subrange(0, bytes.len() as int)[i] == magic[i]);
        }
    }
    if begins(magic, bytes) {
        assert(bytes =~= magic.subrange(0, bytes.len() as int));
    }
}

} // verus!
