//! What the package manager's own types accept.
use vstd::prelude::*;
use vstd::string::*;

use crate::manifest::{Architecture, Scope};
use crate::search::starts_with;
use crate::text::{joined, opt_text, texts, trimmed};

verus! {

/// Whether a package version may not hold a character: a control character, or one that paths and
/// file names cannot hold.
pub open spec fn is_disallowed(c: char) -> bool {
    let n = c as u32;
    ||| n <= 0x1F
    ||| 0x7F <= n <= 0x9F
    ||| c == '\\' || c == '/' || c == ':' || c == '*' || c == '?' || c == '"' || c == '<' || c == '>'
        || c == '|'
}

/// Whether a text is a package version.
pub open spec fn is_package_version(s: Seq<char>) -> bool {
    0 < s.len() <= 128 && forall|i: int| 0 <= i < s.len() ==> !is_disallowed(#[trigger] s[i])
}

/// What is wrong with a text that is no package version.
pub uninterp spec fn package_version_fault(s: Seq<char>) -> Seq<char>;

/// `winget_types::PackageVersion::new` accepts a text of one up to 128 characters of which none is
/// disallowed, and keeps it without the white space around it. What it says of another text
/// depends on the text alone.
#[verifier::external_body]
pub(crate) fn parse_package_version(s: &str) -> (r: Result<String, String>)
    ensures
        r is Ok <==> is_package_version(s@),
        r matches Ok(version) ==> version@ == trimmed(s@),
        r matches Err(fault) ==> fault@ == package_version_fault(s@),
{
    match winget_types::PackageVersion::new(s) {
        Ok(version) => Ok(version.to_string()),
        Err(error) => Err(error.to_string()),
    }
}

/// How one version stands to another.
#[derive(Clone, Copy, Debug, Eq, PartialEq, Structural)]
pub enum VersionOrder {
    Before,
    Same,
    After,
}

impl VersionOrder {
    /// How the other version stands to the one.
    pub open spec fn reversed(self) -> VersionOrder {
        match self {
            VersionOrder::Before => VersionOrder::After,
            VersionOrder::Same => VersionOrder::Same,
            VersionOrder::After => VersionOrder::Before,
        }
    }
}

/// How one version stands to another.
pub uninterp spec fn version_order(a: Seq<char>, b: Seq<char>) -> VersionOrder;

/// `winget_types::Version` in its order: it depends on the two texts alone, is reversed where they
/// change places, and a version is the same as itself.
#[verifier::external_body]
pub(crate) fn compare_versions(a: &str, b: &str) -> (r: VersionOrder)
    ensures
        r == version_order(a@, b@),
        version_order(b@, a@) == r.reversed(),
        a@ == b@ ==> r == VersionOrder::Same,
{
    match winget_types::Version::new(a).cmp(&winget_types::Version::new(b)) {
        std::cmp::Ordering::Less => VersionOrder::Before,
        std::cmp::Ordering::Equal => VersionOrder::Same,
        std::cmp::Ordering::Greater => VersionOrder::After,
    }
}

/// The version of a list that is closest to a version.
pub uninterp spec fn closest_of(version: Seq<char>, versions: Seq<Seq<char>>) -> Option<Seq<char>>;

/// `winget_types::Version::closest` finds a version wherever there is one. Which depends on the
/// version and the list alone.
#[verifier::external_body]
pub(crate) fn closest_version(version: &str, versions: &Vec<String>) -> (r: Option<String>)
    ensures
        closest_of(version@, texts(versions@)) == match r {
            Some(closest) => Some(closest@),
            None => None::<Seq<char>>,
        },
        r is Some <==> versions@.len() > 0,
{
    let list: Vec<_> = versions.iter().map(winget_types::Version::new).collect();
    winget_types::Version::new(version).closest(&list).map(|closest| closest.to_string())
}

/// What is wrong with a text that is no package identifier, or nothing.
pub uninterp spec fn package_identifier_fault(s: Seq<char>) -> Option<Seq<char>>;

/// `winget_types::PackageIdentifier::new` keeps a text that it accepts as it is. Whether it does,
/// and what it says of another, depends on the text alone.
#[verifier::external_body]
pub(crate) fn parse_package_identifier(s: &str) -> (r: Result<String, String>)
    ensures
        match r {
            Ok(identifier) => identifier@ == s@ && package_identifier_fault(s@) is None,
            Err(fault) => package_identifier_fault(s@) == Some(fault@),
        },
{
    match winget_types::PackageIdentifier::new(s) {
        Ok(identifier) => Ok(identifier.to_string()),
        Err(error) => Err(error.to_string()),
    }
}

/// The release notes that a text makes, or what is wrong with it.
pub uninterp spec fn release_notes_of(s: Seq<char>) -> Result<Seq<char>, Seq<char>>;

/// `winget_types::locale::ReleaseNotes::new`: what it keeps of a text, or that it refuses it, depends
/// on the text alone. It keeps some text wherever it accepts one, and refuses a text of white space.
#[verifier::external_body]
pub(crate) fn parse_release_notes(s: &str) -> (r: Result<String, String>)
    ensures
        release_notes_of(s@) == match r {
            Ok(notes) => Ok::<Seq<char>, Seq<char>>(notes@),
            Err(fault) => Err(fault@),
        },
        r matches Ok(notes) ==> notes@.len() > 0,
        trimmed(s@).len() == 0 ==> r is Err,
{
    match winget_types::locale::ReleaseNotes::new(s) {
        Ok(notes) => Ok(notes.to_string()),
        Err(error) => Err(error.to_string()),
    }
}

/// The URL that a text is when it is percent-decoded, with its host where it has one, or what is
/// wrong with it.
pub uninterp spec fn decoded_url(s: Seq<char>) -> Result<(Seq<char>, Option<Seq<char>>), Seq<char>>;

/// `winget_types::url::DecodedUrl`, parsed from a text: the URL and its host, or what it says of the
/// text, depend on the text alone.
#[verifier::external_body]
pub(crate) fn parse_decoded_url(s: &str) -> (r: Result<(String, Option<String>), String>)
    ensures
        decoded_url(s@) == match r {
            Ok((url, host)) => Ok::<(Seq<char>, Option<Seq<char>>), Seq<char>>(
                (url@, opt_text(host)),
            ),
            Err(fault) => Err(fault@),
        },
{
    match s.parse::<winget_types::url::DecodedUrl>() {
        Ok(url) => Ok((url.to_string(), url.host_str().map(str::to_owned))),
        Err(error) => Err(error.to_string()),
    }
}

/// The URL that a text is as it stands, or what is wrong with it.
pub uninterp spec fn plain_url(s: Seq<char>) -> Result<Seq<char>, Seq<char>>;

/// `reqwest::Url::parse`: the URL, or what it says of the text, depends on the text alone.
#[verifier::external_body]
pub(crate) fn parse_plain_url(s: &str) -> (r: Result<String, String>)
    ensures
        plain_url(s@) == match r {
            Ok(url) => Ok::<Seq<char>, Seq<char>>(url@),
            Err(fault) => Err(fault@),
        },
{
    match reqwest::Url::parse(s) {
        Ok(url) => Ok(url.to_string()),
        Err(error) => Err(error.to_string()),
    }
}

/// The architecture that a URL names between two delimiters, or before the extension of a file.
pub uninterp spec fn url_architecture(s: Seq<char>) -> Option<Architecture>;

/// Whether a URL is one of the web.
pub open spec fn is_web_url(s: Seq<char>) -> bool {
    "http://"@.is_prefix_of(s) || "https://"@.is_prefix_of(s)
}

/// Blanks, as many as the longest name of an architecture has characters.
pub open spec fn blanks() -> Seq<char> {
    "       "@
}

/// `winget_types::installer::Architecture::from_url`: which architecture it finds depends on the URL
/// alone. It looks at the character before a name or an extension and at as many characters before a dot
/// as the longest name has, so that it may panic on a text that starts with one of them.
#[verifier::external_body]
fn architecture_from_url(s: &str) -> (r: Option<Architecture>)
    requires
        is_web_url(s@) || blanks().is_prefix_of(s@),
    ensures
        r == url_architecture(s@),
{
    winget_types::installer::Architecture::from_url(s).map(|architecture| match architecture {
        winget_types::installer::Architecture::X86 => Architecture::X86,
        winget_types::installer::Architecture::X64 => Architecture::X64,
        winget_types::installer::Architecture::Arm => Architecture::Arm,
        winget_types::installer::Architecture::Arm64 => Architecture::Arm64,
        winget_types::installer::Architecture::Neutral => Architecture::Neutral,
    })
}

/// The text in which an architecture is looked for. A name at the end of a URL counts as one that a
/// delimiter follows. Blanks, which delimit nothing and are part of no name, stand before a URL that may
/// start with a name.
pub open spec fn searched_url(url: Seq<char>) -> Seq<char> {
    if is_web_url(url) {
        url + "/"@
    } else {
        blanks() + url + "/"@
    }
}

/// The architecture that a URL names.
pub open spec fn named_in_url(url: Seq<char>) -> Option<Architecture> {
    url_architecture(searched_url(url))
}

/// The architecture that a URL names.
pub fn architecture_in_url(url: &str) -> (r: Option<Architecture>)
    ensures
        r == named_in_url(url@),
{
    let ended = if starts_with(url, "http://") || starts_with(url, "https://") {
        let ended = joined(url, "/");
        assert(is_web_url(ended@)) by {
            assert("http://"@.is_prefix_of(url@) ==> "http://"@.is_prefix_of(ended@));
            assert("https://"@.is_prefix_of(url@) ==> "https://"@.is_prefix_of(ended@));
        }
        ended
    } else {
        let set_off = joined("       ", url);
        let ended = joined(set_off.as_str(), "/");
        assert(blanks() =~= ended@.subrange(0, blanks().len() as int));
        ended
    };
    architecture_from_url(ended.as_str())
}

/// The directories below which an installer installs for one user.
pub open spec fn user_directories() -> Seq<Seq<char>> {
    seq!["%AppData%"@, "%LocalAppData%"@]
}

/// The directories below which an installer installs for the machine.
pub open spec fn machine_directories() -> Seq<Seq<char>> {
    seq![
        "%ProgramFiles%"@,
        "%ProgramFiles(x86)%"@,
        "%CommonProgramFiles%"@,
        "%CommonProgramFiles(x86)%"@,
        "%ProgramData%"@,
        "%WinDir%"@,
        "%SystemRoot%"@,
    ]
}

/// Whether a path starts with one of the directories.
pub open spec fn starts_with_any(path: Seq<char>, directories: Seq<Seq<char>>) -> bool {
    exists|i: int| 0 <= i < directories.len() && (#[trigger] directories[i]).is_prefix_of(path)
}

/// The scope that an install directory tells of.
pub open spec fn directory_scope(path: Seq<char>) -> Option<Scope> {
    if starts_with_any(path, user_directories()) {
        Some(Scope::User)
    } else if starts_with_any(path, machine_directories()) {
        Some(Scope::Machine)
    } else {
        None
    }
}

/// `winget_types::installer::Scope::from_install_directory` goes by the directory that a path starts
/// with, those of one user before those of the machine.
#[verifier::external_body]
pub(crate) fn scope_from_directory(path: &str) -> (r: Option<Scope>)
    ensures
        r == directory_scope(path@),
{
    winget_types::installer::Scope::from_install_directory(path).map(|scope| match scope {
        winget_types::installer::Scope::User => Scope::User,
        winget_types::installer::Scope::Machine => Scope::Machine,
    })
}

/// The tag of a language, by the number that Windows gives it.
pub uninterp spec fn windows_language(id: u16) -> Seq<char>;

/// `msi::Language::tag` knows a tag for every number; which depends on the number alone.
#[verifier::external_body]
pub(crate) fn windows_language_tag(id: u16) -> (r: String)
    ensures
        r@ == windows_language(id),
{
    msi::Language::from_code(id).tag().to_owned()
}

/// The language tag that a text is, in its usual form.
pub uninterp spec fn language_tag(s: Seq<char>) -> Option<Seq<char>>;

/// `winget_types::LanguageTag`, parsed from a text: its usual form, or that it is none, depends on the
/// text alone.
#[verifier::external_body]
pub(crate) fn parse_language_tag(s: &str) -> (r: Option<String>)
    ensures
        language_tag(s@) == match r {
            Some(tag) => Some(tag@),
            None => None::<Seq<char>>,
        },
{
    s.parse::<winget_types::LanguageTag>().ok().map(|tag| tag.to_string())
}

/// `winget_types::locale::Copyright::new` keeps a text of 3 up to 512 characters.
#[verifier::external_body]
pub(crate) fn parse_copyright(s: String) -> (r: Option<String>)
    ensures
        r is Some <==> 3 <= s@.len() <= 512,
        r matches Some(kept) ==> kept@ == s@,
{
    winget_types::locale::Copyright::new(s).ok().map(|kept| kept.to_string())
}

/// `winget_types::locale::PackageName::new` keeps a text of 2 up to 256 characters.
#[verifier::external_body]
pub(crate) fn parse_package_name(s: String) -> (r: Option<String>)
    ensures
        r is Some <==> 2 <= s@.len() <= 256,
        r matches Some(kept) ==> kept@ == s@,
{
    winget_types::locale::PackageName::new(s).ok().map(|kept| kept.to_string())
}

/// `winget_types::locale::Publisher::new` keeps a text of 2 up to 256 characters.
#[verifier::external_body]
pub(crate) fn parse_publisher(s: String) -> (r: Option<String>)
    ensures
        r is Some <==> 2 <= s@.len() <= 256,
        r matches Some(kept) ==> kept@ == s@,
{
    winget_types::locale::Publisher::new(s).ok().map(|kept| kept.to_string())
}

} // verus!
