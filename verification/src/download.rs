//! Downloaded files.
use camino::Utf8Path;
use sha2::{Digest, Sha256};
use vstd::prelude::*;
use vstd::string::*;

use crate::analyzer::{
    extension, extension_before, leads_up, lemma_stripped, stripped, valid_extension, ValidFileExtensions,
};
use crate::manifest::Architecture;
use crate::source::{Url, UrlView};
use crate::search::lower_text;
use crate::text::{joined, opt_text};
use crate::time::Date;
use crate::winget::{architecture_in_url, named_in_url};

verus! {

/// A downloaded file.
#[derive(Debug)]
pub struct DownloadedFile {
    pub url: Url,
    pub sha_256: String,
    pub file_name: String,
    pub last_modified: Option<Date>,
}

/// The hash of bytes.
pub uninterp spec fn sha256(data: Seq<u8>) -> Seq<u8>;

/// `sha2::Sha256::digest` gives 32 bytes, which depend on the data alone.
#[verifier::external_body]
fn digest(data: &[u8]) -> (r: Vec<u8>)
    ensures
        r@ == sha256(data@),
        r@.len() == 32,
{
    Sha256::digest(data).to_vec()
}

/// The character of a hexadecimal digit.
pub open spec fn hex_digit(n: u8) -> char {
    if n < 10 {
        (48 + n) as char
    } else {
        (55 + n) as char
    }
}

/// Bytes in hexadecimal, two digits each, in upper case.
pub open spec fn hex_text(data: Seq<u8>) -> Seq<char>
    decreases data.len(),
{
    if data.len() == 0 {
        Seq::empty()
    } else {
        hex_text(data.drop_last()).push(hex_digit(data.last() / 16)).push(
            hex_digit(data.last() % 16),
        )
    }
}

fn hex_char(n: u8) -> (r: char)
    requires
        n < 16,
    ensures
        r == hex_digit(n),
{
    if n < 10 {
        (48 + n) as char
    } else {
        (55 + n) as char
    }
}

/// Bytes in hexadecimal, in upper case.
pub fn to_hex(data: &Vec<u8>) -> (r: String)
    ensures
        r@ == hex_text(data@),
{
    let mut out = String::new();
    let mut i: usize = 0;
    assert(data@.take(0) =~= Seq::<u8>::empty());
    while i < data.len()
        invariant
            i <= data.len(),
            out@ == hex_text(data@.take(i as int)),
        decreases data.len() - i,
    {
        let byte: u8 = data[i];
        assert(data@.take(i + 1).drop_last() =~= data@.take(i as int));
        out.push(hex_char(byte / 16));
        out.push(hex_char(byte % 16));
        i += 1;
    }
    assert(data@.take(i as int) =~= data@);
    out
}

/// The hash of a file, as a manifest holds it.
pub fn sha256_digest(data: &[u8]) -> (r: String)
    ensures
        r@ == hex_text(sha256(data@)),
{
    to_hex(&digest(data))
}

/// Whether a file name is that of a bundle.
pub open spec fn names_bundle(file_name: Seq<char>) -> bool {
    valid_extension(file_name) == Some(ValidFileExtensions::MsixBundle) || valid_extension(file_name)
        == Some(ValidFileExtensions::AppxBundle)
}

fn is_bundle(file_name: &str) -> (r: bool)
    ensures
        r == names_bundle(file_name@),
{
    match ValidFileExtensions::from_path(file_name) {
        Some(ValidFileExtensions::MsixBundle) | Some(ValidFileExtensions::AppxBundle) => true,
        _ => false,
    }
}

/// The architecture of a downloaded file, given what its URL names: the one that was given with the
/// URL, or else the one that the URL names. A bundle holds packages for several, so its URL tells
/// nothing.
pub open spec fn downloaded_architecture(
    url: UrlView,
    file_name: Seq<char>,
    named: Option<Architecture>,
) -> Option<Architecture> {
    if url.architecture is Some {
        url.architecture
    } else if names_bundle(file_name) {
        None
    } else {
        named
    }
}

/// The architecture of a downloaded file, given what its URL names.
pub fn known_architecture(url: &Url, file_name: &str, named: Option<Architecture>) -> (r: Option<
    Architecture,
>)
    ensures
        r == downloaded_architecture(url@, file_name@, named),
{
    if url.architecture.is_some() {
        return url.architecture;
    }
    if is_bundle(file_name) {
        None
    } else {
        named
    }
}

/// What follows the last slash of a text.
pub open spec fn after_slash(path: Seq<char>) -> Seq<char>
    decreases path.len(),
{
    if path.len() == 0 || path.last() == '/' {
        Seq::empty()
    } else {
        after_slash(path.drop_last()).push(path.last())
    }
}

/// The last part of a path whose parts slashes separate. One that ends in a step up, and one that leads
/// nowhere or to the root, has none.
pub open spec fn last_part(path: Seq<char>) -> Option<Seq<char>> {
    let kept = stripped(path);
    if kept.len() == 0 || kept == "."@ || leads_up(kept) {
        None
    } else {
        Some(after_slash(kept))
    }
}

/// Whether every system takes a path apart at its slashes alone: it holds no backslash and no colon, and
/// does not start with two slashes.
pub open spec fn is_portable(path: Seq<char>) -> bool {
    &&& !path.contains('\\')
    &&& !path.contains(':')
    &&& !(path.len() > 1 && path[0] == '/' && path[1] == '/')
}

/// Whether a text is a stretch of a path, and not empty.
pub open spec fn is_stretch(name: Seq<char>, path: Seq<char>) -> bool {
    name.len() > 0 && exists|at: int|
        0 <= at && at + name.len() <= path.len() && name == #[trigger] path.subrange(
            at,
            at + name.len(),
        )
}

/// `camino::Utf8Path::file_name` gives the last part of a path. A slash separates parts on every system;
/// which other characters do, and which starts of a path have a meaning of their own, differs from system
/// to system, so that of a path with such characters no more is said than that its last part stands in
/// it.
#[verifier::external_body]
fn path_file_name(path: &str) -> (r: Option<String>)
    ensures
        is_portable(path@) ==> opt_text(r) == last_part(path@),
        r matches Some(name) ==> is_stretch(name@, path@),
{
    Utf8Path::new(path).file_name().map(str::to_owned)
}

/// What a file is called, given the last part of its path: by that, or by the path where it has none.
pub open spec fn name_of(path: Seq<char>, last_part: Option<Seq<char>>) -> Seq<char> {
    match last_part {
        Some(name) => name,
        None => path,
    }
}

/// What a file is called, given the last part of its path.
pub fn name_or_path(path: &str, last_part: Option<String>) -> (r: String)
    ensures
        r@ == name_of(path@, opt_text(last_part)),
{
    match last_part {
        Some(name) => name,
        None => path.to_owned(),
    }
}

/// Whether a file on disk is called so: by the last part of its path, or by the path where it has none.
pub open spec fn is_local_name(path: Seq<char>, name: Seq<char>) -> bool {
    &&& is_portable(path) ==> name == name_of(path, last_part(path))
    &&& name == path || is_stretch(name, path)
}

/// What a file on disk is called: by the last part of its path, or by the path where it has none.
pub fn local_name(path: &str) -> (r: String)
    ensures
        is_local_name(path@, r@),
{
    let last_part = path_file_name(path);
    name_or_path(path, last_part)
}

impl DownloadedFile {
    /// A file that is on disk already, as if it had been downloaded from a URL. It is called by the
    /// last part of its path, or by the path where it has none.
    pub fn from_local(path: &str, data: &[u8], url: Url) -> (r: DownloadedFile)
        ensures
            r.url@ == url@,
            r.sha_256@ == hex_text(sha256(data@)),
            is_local_name(path@, r.file_name@),
            r.last_modified is None,
    {
        DownloadedFile {
            url,
            sha_256: sha256_digest(data),
            file_name: local_name(path),
            last_modified: None,
        }
    }

    /// The architecture of the file.
    pub fn architecture(&self) -> (r: Option<Architecture>)
        ensures
            r == downloaded_architecture(
                self.url@,
                self.file_name@,
                named_in_url(self.url@.decoded),
            ),
    {
        if self.url.architecture.is_some() || is_bundle(self.file_name.as_str()) {
            return known_architecture(&self.url, self.file_name.as_str(), None);
        }
        let named = architecture_in_url(self.url.as_str());
        known_architecture(&self.url, self.file_name.as_str(), named)
    }
}

/// The bytes that an OLE compound file, such as an MSI, starts with.
pub open spec fn ole_magic() -> Seq<u8> {
    seq![0xD0u8, 0xCFu8, 0x11u8, 0xE0u8, 0xA1u8, 0xB1u8, 0x1Au8, 0xE1u8]
}

/// The bytes that a portable executable starts with.
pub open spec fn pe_magic() -> Seq<u8> {
    seq![0x4Du8, 0x5Au8]
}

/// A file name with the extension that the first bytes of the file tell of, where it has none that
/// can be analyzed. Only two kinds of file are told apart: several extensions share the form of a
/// zip archive, and a wrong guess would go unseen.
pub open spec fn inferred_name(file_name: Seq<char>, magic: Seq<u8>) -> Seq<char> {
    if valid_extension(file_name) is Some {
        file_name
    } else if ole_magic().is_prefix_of(magic) {
        file_name + ".msi"@
    } else if pe_magic().is_prefix_of(magic) {
        file_name + ".exe"@
    } else {
        file_name
    }
}

/// A file name with the extension that the first bytes of the file tell of.
pub fn infer_extension(file_name: String, magic: &[u8]) -> (r: String)
    ensures
        r@ == inferred_name(file_name@, magic@),
{
    if ValidFileExtensions::from_path(file_name.as_str()).is_some() {
        return file_name;
    }
    let n: usize = magic.len();
    let is_ole = n >= 8 && magic[0] == 0xD0 && magic[1] == 0xCF && magic[2] == 0x11 && magic[3]
        == 0xE0 && magic[4] == 0xA1 && magic[5] == 0xB1 && magic[6] == 0x1A && magic[7] == 0xE1;
    let is_pe = n >= 2 && magic[0] == 0x4D && magic[1] == 0x5A;
    proof {
        let ole = ole_magic();
        if is_ole {
            assert(ole =~= magic@.subrange(0, 8));
        } else if ole.is_prefix_of(magic@) {
            let head = magic@.subrange(0, 8);
            assert(head[0] == magic@[0] && head[1] == magic@[1] && head[2] == magic@[2]);
            assert(head[3] == magic@[3] && head[4] == magic@[4] && head[5] == magic@[5]);
            assert(head[6] == magic@[6] && head[7] == magic@[7]);
        }
        let pe = pe_magic();
        if is_pe {
            assert(pe =~= magic@.subrange(0, 2));
        } else if pe.is_prefix_of(magic@) {
            let head = magic@.subrange(0, 2);
            assert(head[0] == magic@[0] && head[1] == magic@[1]);
        }
    }
    if is_ole {
        joined(file_name.as_str(), ".msi")
    } else if is_pe {
        joined(file_name.as_str(), ".exe")
    } else {
        file_name
    }
}

proof fn lemma_extension_added(file_name: Seq<char>, added: Seq<char>)
    requires
        file_name.len() > 0,
        file_name.last() != '/',
        added.len() == 4,
        added[0] == '.',
        forall|i: int| 1 <= i < 4 ==> #[trigger] added[i] != '.' && added[i] != '/',
    ensures
        extension(file_name + added) == Some(added.skip(1)),
{
    let path = file_name + added;
    let n = path.len() as int;
    reveal_with_fuel(extension_before, 5);
    assert(path[n - 1] == added[3] && path[n - 2] == added[2] && path[n - 3] == added[1]);
    assert(path[n - 4] == added[0] && path[n - 5] == file_name.last());
    assert(path.skip(n - 3) =~= added.skip(1));
}

/// Where the first bytes of a file tell its kind, the name that is inferred has an extension that can
/// be analyzed, and inferring once more changes nothing.
pub proof fn law_inferred_name(file_name: Seq<char>, magic: Seq<u8>)
    requires
        file_name.len() > 0,
        file_name.last() != '/',
    ensures
        ole_magic().is_prefix_of(magic) || pe_magic().is_prefix_of(magic) ==> valid_extension(
            inferred_name(file_name, magic),
        ) is Some,
        inferred_name(inferred_name(file_name, magic), magic) == inferred_name(file_name, magic),
{
    reveal_strlit(".msi");
    reveal_strlit("msi");
    reveal_strlit(".exe");
    reveal_strlit("exe");
    lemma_extension_added(file_name, ".msi"@);
    lemma_extension_added(file_name, ".exe"@);
    assert(lower_text(".msi"@.skip(1)) =~= "msi"@);
    assert(lower_text(".exe"@.skip(1)) =~= "exe"@);
}

proof fn lemma_after_slash(head: Seq<char>, name: Seq<char>)
    requires
        !name.contains('/'),
        head.len() == 0 || head.last() == '/',
    ensures
        after_slash(head + name) == name,
    decreases name.len(),
{
    let path = head + name;
    if name.len() == 0 {
        assert(path =~= head);
    } else {
        let shorter = name.drop_last();
        assert(name[name.len() - 1] != '/');
        assert forall|i: int| 0 <= i < shorter.len() implies shorter[i] != '/' by {
            assert(name[i] != '/');
        }
        lemma_after_slash(head, shorter);
        assert(path.drop_last() =~= head + shorter);
        assert(shorter.push(name.last()) =~= name);
    }
}

/// A file in a directory is called by its name, with or without a slash behind it.
pub proof fn law_name_in_directory(directory: Seq<char>, name: Seq<char>)
    requires
        name.len() > 0,
        !name.contains('/'),
        name != "."@,
        name != ".."@,
    ensures
        last_part(name) == Some(name),
        last_part(directory + "/"@ + name) == Some(name),
        last_part(directory + "/"@ + name + "/"@) == Some(name),
{
    reveal_strlit(".");
    reveal_strlit("..");
    reveal_strlit("/");
    let head = directory + "/"@;
    let path = head + name;
    assert(name[name.len() - 1] != '/');
    if name.len() == 1 {
        assert(name =~= seq![name[0]]);
        assert("."@ =~= seq!['.']);
    }
    if name.len() == 2 {
        assert(name =~= seq![name[0], name[1]]);
        assert(".."@ =~= seq!['.', '.']);
    }
    if name.len() > 1 {
        assert(name[name.len() - 2] != '/');
        assert(path[path.len() - 2] == name[name.len() - 2]);
    }
    if name.len() > 2 {
        assert(name[name.len() - 3] != '/');
        assert(path[path.len() - 3] == name[name.len() - 3]);
    }
    assert(path.last() == name.last());
    assert(stripped(name) == name);
    assert(stripped(path) == path);
    assert((path + "/"@).drop_last() =~= path);
    assert(stripped(path + "/"@) == stripped(path));
    assert(Seq::<char>::empty() + name =~= name);
    lemma_after_slash(Seq::empty(), name);
    lemma_after_slash(head, name);
}

proof fn lemma_last_part(path: Seq<char>)
    ensures
        after_slash(path).len() <= path.len(),
        after_slash(path) == path.skip(path.len() - after_slash(path).len()),
        !after_slash(path).contains('/'),
        after_slash(path).len() < path.len() ==> path[path.len() - after_slash(path).len() - 1] == '/',
    decreases path.len(),
{
    if path.len() > 0 && path.last() != '/' {
        let shorter = path.drop_last();
        lemma_last_part(shorter);
        let part = after_slash(path);
        assert(part =~= path.skip(path.len() - part.len()));
        assert forall|i: int| 0 <= i < part.len() implies part[i] != '/' by {
            if i < part.len() - 1 {
                assert(part[i] == after_slash(shorter)[i]);
            }
        }
    } else {
        assert(path.skip(path.len() as int) =~= Seq::<char>::empty());
    }
}

/// The last part of a path is a stretch of it without a slash, and is no step up.
pub proof fn law_last_part(path: Seq<char>)
    ensures
        last_part(path) matches Some(name) ==> {
            &&& is_stretch(name, path)
            &&& !name.contains('/')
            &&& name != "."@
            &&& name != ".."@
        },
{
    reveal_strlit(".");
    reveal_strlit("..");
    let kept = stripped(path);
    if let Some(name) = last_part(path) {
        lemma_stripped(path);
        lemma_last_part(kept);
        lemma_stripped_end(path);
        let at = kept.len() - name.len();
        assert(name =~= path.subrange(at, at + name.len()));
        if name == "."@ {
            assert(name.len() == 1);
            assert(kept[at] == name[0]);
            if at == 0 {
                assert(kept =~= name);
            }
        }
        if name == ".."@ {
            assert(name.len() == 2);
            assert(kept[kept.len() - 1] == name[1] && kept[kept.len() - 2] == name[0]);
        }
    }
}

proof fn lemma_stripped_end(path: Seq<char>)
    ensures
        stripped(path).len() > 0 ==> stripped(path).last() != '/' && !(stripped(path).len() > 1
            && stripped(path).last() == '.' && stripped(path)[stripped(path).len() - 2] == '/'),
    decreases path.len(),
{
    if path.len() > 0 {
        lemma_stripped_end(path.drop_last());
    }
}

/// A hash in hexadecimal has two digits for each byte.
pub proof fn law_hex_text(data: Seq<u8>)
    ensures
        hex_text(data).len() == 2 * data.len(),
    decreases data.len(),
{
    if data.len() > 0 {
        law_hex_text(data.drop_last());
    }
}

/// A name with an extension that can be analyzed stays, and so does the name of a file that does not
/// start like one of the two kinds. Any other only grows at its end.
pub proof fn law_kept_name(file_name: Seq<char>, magic: Seq<u8>)
    ensures
        valid_extension(file_name) is Some ==> inferred_name(file_name, magic) == file_name,
        !ole_magic().is_prefix_of(magic) && !pe_magic().is_prefix_of(magic) ==> inferred_name(
            file_name,
            magic,
        ) == file_name,
        file_name.is_prefix_of(inferred_name(file_name, magic)),
{
    assert(file_name =~= file_name.subrange(0, file_name.len() as int));
    assert(file_name =~= (file_name + ".msi"@).subrange(0, file_name.len() as int));
    assert(file_name =~= (file_name + ".exe"@).subrange(0, file_name.len() as int));
}

} // verus!
